use vstd::prelude::*;

verus! {

// ---------------------------------------------------------------------------
// Bucket rows: named, per-user, quota-bearing containers. A bucket name is
// unique across the whole system; the size counter never goes negative and
// never exceeds the quota.
// ---------------------------------------------------------------------------

/// Quota ceiling recorded on a freshly created bucket. The quota fields are
/// carried by the catalog but not yet consumed by file operations, since no
/// file-to-bucket link exists in the data model.
pub const DEFAULT_MAX_BUCKET_SIZE: i64 = 1073741824;

/// One catalog row describing a bucket.
pub struct Bucket {
    pub bucket_id: u128,
    pub user_id: u128,
    pub bucket_name: String,
    pub bucket_size: i64,
    pub max_bucket_size: i64,
    pub created_date: i64,
    pub is_shared: bool,
}

/// The mathematical image of a bucket row.
pub ghost struct BucketV {
    pub bucket_id: int,
    pub user_id: int,
    pub bucket_name: Seq<char>,
    pub bucket_size: int,
    pub max_bucket_size: int,
    pub created_date: int,
    pub is_shared: bool,
}

impl View for Bucket {
    type V = BucketV;

    open spec fn view(&self) -> BucketV {
        BucketV {
            bucket_id: self.bucket_id as int,
            user_id: self.user_id as int,
            bucket_name: self.bucket_name@,
            bucket_size: self.bucket_size as int,
            max_bucket_size: self.max_bucket_size as int,
            created_date: self.created_date as int,
            is_shared: self.is_shared,
        }
    }
}

/// The size counter is a derived value: never negative, never above the quota.
pub open spec fn bucket_inv(b: BucketV) -> bool {
    0 <= b.bucket_size <= b.max_bucket_size
}

impl Bucket {
    /// A field-for-field copy of the row.
    pub fn duplicate(&self) -> (r: Bucket)
        ensures
            r@ == self@,
    {
        Bucket {
            bucket_id: self.bucket_id,
            user_id: self.user_id,
            bucket_name: self.bucket_name.clone(),
            bucket_size: self.bucket_size,
            max_bucket_size: self.max_bucket_size,
            created_date: self.created_date,
            is_shared: self.is_shared,
        }
    }
}

/// The views of a sequence of bucket rows.
pub open spec fn bucket_views(s: Seq<Bucket>) -> Seq<BucketV> {
    s.map_values(|b: Bucket| b@)
}

/// A bucket name alone, as the catalog hands names out.
pub struct BucketNames {
    pub bucket_name: String,
}

/// The caller-supplied part of a bucket to be created.
pub struct NewBucket {
    pub bucket_name: String,
}

/// Why a bulk bucket deletion was refused.
#[derive(Clone, Copy, Debug, PartialEq, Eq, Structural)]
pub enum BucketDeletionError {
    /// The user's buckets could not be fetched at all.
    InvalidBucket,
    /// Some bucket of the set carries the shared flag.
    CanNotDeleteSharedBucket,
    /// Some bucket of the set still accounts for stored bytes.
    CanNotDeleteBucketWithFiles,
    /// The catalog refused the deletion; nothing was removed.
    FailedToDeleteBucket,
}

/// Why a bucket creation failed.
#[derive(Clone, Copy, Debug, PartialEq, Eq, Structural)]
pub enum BucketCreationError {
    /// A bucket of that name already exists somewhere in the system.
    NameConflict,
    /// A backing store refused; no row and no directory were left behind.
    StorageFailure,
}

// ---------------------------------------------------------------------------
// Classification of a user's bucket set for bulk deletion. The whole set is
// judged in one pass: a shared bucket anywhere blocks everything, then a
// non-empty bucket anywhere, and only a wholly unshared, wholly empty set may
// be deleted. The verdict depends only on which buckets are present, never on
// their order.
// ---------------------------------------------------------------------------

pub open spec fn any_shared(bs: Seq<BucketV>) -> bool {
    exists|i: int| 0 <= i < bs.len() && bs[i].is_shared
}

pub open spec fn any_with_files(bs: Seq<BucketV>) -> bool {
    exists|i: int| 0 <= i < bs.len() && bs[i].bucket_size > 0
}

/// What, if anything, blocks deleting this set of buckets.
pub open spec fn deletion_block_of(bs: Seq<BucketV>) -> Option<BucketDeletionError> {
    if any_shared(bs) {
        Some(BucketDeletionError::CanNotDeleteSharedBucket)
    } else if any_with_files(bs) {
        Some(BucketDeletionError::CanNotDeleteBucketWithFiles)
    } else {
        None
    }
}

/// Judges a user's bucket set in a single pass, shared buckets taking
/// precedence over non-empty ones whatever order the rows arrive in.
pub fn classify_buckets(buckets: &Vec<Bucket>) -> (r: Option<BucketDeletionError>)
    ensures
        r == deletion_block_of(bucket_views(buckets@)),
{
    let ghost bs = bucket_views(buckets@);
    let mut shared = false;
    let mut with_files = false;
    let mut i: usize = 0;
    while i < buckets.len()
        invariant
            i <= buckets@.len(),
            bs == bucket_views(buckets@),
            shared == any_shared(bs.take(i as int)),
            with_files == any_with_files(bs.take(i as int)),
        decreases buckets@.len() - i,
    {
        if buckets[i].is_shared {
            shared = true;
        }
        if buckets[i].bucket_size > 0 {
            with_files = true;
        }
        i = i + 1;
        proof {
            let t = bs.take(i as int);
            let p = bs.take(i - 1);
            assert(t[i - 1] == bs[i - 1]);
            if bs[i - 1].is_shared {
                assert(t[i - 1].is_shared);
            }
            if any_shared(p) {
                let j = choose|j: int| 0 <= j < p.len() && p[j].is_shared;
                assert(t[j].is_shared);
            }
            if any_shared(t) && !bs[i - 1].is_shared {
                let j = choose|j: int| 0 <= j < t.len() && t[j].is_shared;
                assert(p[j].is_shared);
            }
            if bs[i - 1].bucket_size > 0 {
                assert(t[i - 1].bucket_size > 0);
            }
            if any_with_files(p) {
                let j = choose|j: int| 0 <= j < p.len() && p[j].bucket_size > 0;
                assert(t[j].bucket_size > 0);
            }
            if any_with_files(t) && !(bs[i - 1].bucket_size > 0) {
                let j = choose|j: int| 0 <= j < t.len() && t[j].bucket_size > 0;
                assert(p[j].bucket_size > 0);
            }
        }
    }
    proof {
        assert(bs.take(buckets@.len() as int) =~= bs);
    }
    if shared {
        Some(BucketDeletionError::CanNotDeleteSharedBucket)
    } else if with_files {
        Some(BucketDeletionError::CanNotDeleteBucketWithFiles)
    } else {
        None
    }
}

/// The deletion verdict over a set of buckets is blind to order: two
/// sequences holding the same rows, however arranged, are judged alike.
pub proof fn lemma_classification_order_independent(bs1: Seq<BucketV>, bs2: Seq<BucketV>)
    requires
        bs1.to_multiset() == bs2.to_multiset(),
    ensures
        deletion_block_of(bs1) == deletion_block_of(bs2),
{
    broadcast use vstd::seq_lib::group_to_multiset_ensures;

    assert forall|i: int| 0 <= i < bs1.len() implies bs2.contains(bs1[i]) by {
        assert(bs1.contains(bs1[i]));
        assert(bs1.to_multiset().count(bs1[i]) > 0);
    }
    assert forall|i: int| 0 <= i < bs2.len() implies bs1.contains(bs2[i]) by {
        assert(bs2.contains(bs2[i]));
        assert(bs2.to_multiset().count(bs2[i]) > 0);
    }
    if any_shared(bs1) {
        let i = choose|i: int| 0 <= i < bs1.len() && bs1[i].is_shared;
        let j = choose|j: int| 0 <= j < bs2.len() && bs2[j] == bs1[i];
        assert(bs2[j].is_shared);
    }
    if any_shared(bs2) {
        let i = choose|i: int| 0 <= i < bs2.len() && bs2[i].is_shared;
        let j = choose|j: int| 0 <= j < bs1.len() && bs1[j] == bs2[i];
        assert(bs1[j].is_shared);
    }
    if any_with_files(bs1) {
        let i = choose|i: int| 0 <= i < bs1.len() && bs1[i].bucket_size > 0;
        let j = choose|j: int| 0 <= j < bs2.len() && bs2[j] == bs1[i];
        assert(bs2[j].bucket_size > 0);
    }
    if any_with_files(bs2) {
        let i = choose|i: int| 0 <= i < bs2.len() && bs2[i].bucket_size > 0;
        let j = choose|j: int| 0 <= j < bs1.len() && bs1[j] == bs2[i];
        assert(bs1[j].bucket_size > 0);
    }
}

} // verus!
