use vstd::prelude::*;

use crate::bucket::{bucket_inv, bucket_views, Bucket, BucketV};
use crate::user_file::{file_views, FileV, UserFile};
use crate::utility::str_eq;

verus! {

// ---------------------------------------------------------------------------
// The catalog store: the relational record of bucket and file rows. All
// lookups are by parameter; inserts enforce the uniqueness rules; the batch
// bucket deletion is atomic. A `fault` argument on each mutating operation
// stands for the backend refusing the statement: on a fault nothing changes.
// ---------------------------------------------------------------------------

/// How the catalog backend can refuse an operation.
#[derive(Clone, Copy, Debug, PartialEq, Eq, Structural)]
pub enum CatalogError {
    /// An insert collided with an existing row's unique column.
    UniquenessViolation,
    /// The backend failed; the statement had no effect.
    BackendFailure,
}

/// The two catalog tables.
pub struct Catalog {
    pub buckets: Vec<Bucket>,
    pub files: Vec<UserFile>,
}

/// The mathematical image of the catalog.
pub ghost struct CatalogV {
    pub buckets: Seq<BucketV>,
    pub files: Seq<FileV>,
}

impl View for Catalog {
    type V = CatalogV;

    open spec fn view(&self) -> CatalogV {
        CatalogV { buckets: bucket_views(self.buckets@), files: file_views(self.files@) }
    }
}

// ---------------------------------------------------------------------------
// Spec-level lookups over the two tables: first match, front to back.
// ---------------------------------------------------------------------------

pub open spec fn find_file(fs: Seq<FileV>, id: int) -> Option<FileV>
    decreases fs.len(),
{
    if fs.len() == 0 {
        None
    } else if fs[0].file_id == id {
        Some(fs[0])
    } else {
        find_file(fs.drop_first(), id)
    }
}

pub open spec fn has_file_id(fs: Seq<FileV>, id: int) -> bool {
    find_file(fs, id) is Some
}

pub open spec fn file_by_id(fs: Seq<FileV>, id: int) -> FileV
    recommends
        has_file_id(fs, id),
{
    find_file(fs, id)->0
}

pub open spec fn find_bucket_by_name(bs: Seq<BucketV>, name: Seq<char>) -> Option<BucketV>
    decreases bs.len(),
{
    if bs.len() == 0 {
        None
    } else if bs[0].bucket_name == name {
        Some(bs[0])
    } else {
        find_bucket_by_name(bs.drop_first(), name)
    }
}

pub open spec fn has_bucket_name(bs: Seq<BucketV>, name: Seq<char>) -> bool {
    find_bucket_by_name(bs, name) is Some
}

pub open spec fn bucket_by_name(bs: Seq<BucketV>, name: Seq<char>) -> BucketV
    recommends
        has_bucket_name(bs, name),
{
    find_bucket_by_name(bs, name)->0
}

pub open spec fn find_bucket_by_id(bs: Seq<BucketV>, id: int) -> Option<BucketV>
    decreases bs.len(),
{
    if bs.len() == 0 {
        None
    } else if bs[0].bucket_id == id {
        Some(bs[0])
    } else {
        find_bucket_by_id(bs.drop_first(), id)
    }
}

pub open spec fn has_bucket_id(bs: Seq<BucketV>, id: int) -> bool {
    find_bucket_by_id(bs, id) is Some
}

/// The predicate picking a user's buckets.
pub open spec fn bucket_owned_by(user_id: int) -> spec_fn(BucketV) -> bool {
    |b: BucketV| b.user_id == user_id
}

/// The buckets a user owns, in catalog order.
pub open spec fn buckets_of_user(bs: Seq<BucketV>, user_id: int) -> Seq<BucketV> {
    bs.filter(bucket_owned_by(user_id))
}

/// The predicate picking a user's files.
pub open spec fn file_owned_by(user_id: int) -> spec_fn(FileV) -> bool {
    |f: FileV| f.user_id == user_id
}

/// The files a user owns, in catalog order.
pub open spec fn files_of_user(fs: Seq<FileV>, user_id: int) -> Seq<FileV> {
    fs.filter(file_owned_by(user_id))
}

/// Whether `id` occurs among the identifiers `ids`.
pub open spec fn ids_contain(ids: Seq<u128>, id: int) -> bool {
    exists|k: int| 0 <= k < ids.len() && ids[k] as int == id
}

/// The predicate keeping the buckets that the batch deletion of `ids` spares.
pub open spec fn bucket_id_not_in(ids: Seq<u128>) -> spec_fn(BucketV) -> bool {
    |b: BucketV| !ids_contain(ids, b.bucket_id)
}

/// The bucket table after the batch deletion of `ids`.
pub open spec fn buckets_without_ids(bs: Seq<BucketV>, ids: Seq<u128>) -> Seq<BucketV> {
    bs.filter(bucket_id_not_in(ids))
}

/// The predicate keeping the files that deleting the row keyed `id` spares.
pub open spec fn file_id_not(id: int) -> spec_fn(FileV) -> bool {
    |f: FileV| f.file_id != id
}

/// The file table after deleting the row keyed `id`.
pub open spec fn files_without_id(fs: Seq<FileV>, id: int) -> Seq<FileV> {
    fs.filter(file_id_not(id))
}

/// Catalog well-formedness: bucket identifiers and bucket names are unique
/// system-wide, file identifiers are unique, and every bucket's size counter
/// respects its quota.
pub open spec fn catalog_wf(c: CatalogV) -> bool {
    &&& forall|i: int, j: int|
        0 <= i < j < c.buckets.len() ==> c.buckets[i].bucket_id != c.buckets[j].bucket_id
    &&& forall|i: int, j: int|
        0 <= i < j < c.buckets.len() ==> c.buckets[i].bucket_name != c.buckets[j].bucket_name
    &&& forall|i: int| 0 <= i < c.buckets.len() ==> bucket_inv(#[trigger] c.buckets[i])
    &&& forall|i: int, j: int|
        0 <= i < j < c.files.len() ==> c.files[i].file_id != c.files[j].file_id
}

// ---------------------------------------------------------------------------
// Lemmas about the lookups.
// ---------------------------------------------------------------------------

/// A file lookup misses exactly when no row carries the identifier.
pub proof fn lemma_find_file_none(fs: Seq<FileV>, id: int)
    ensures
        (find_file(fs, id) is None) <==> (forall|i: int| 0 <= i < fs.len() ==> fs[i].file_id != id),
    decreases fs.len(),
{
    if fs.len() > 0 {
        lemma_find_file_none(fs.drop_first(), id);
        if fs[0].file_id != id {
            if find_file(fs, id) is None {
                assert forall|i: int| 0 <= i < fs.len() implies fs[i].file_id != id by {
                    if i > 0 {
                        assert(fs.drop_first()[i - 1].file_id != id);
                    }
                }
            }
            if forall|i: int| 0 <= i < fs.len() ==> fs[i].file_id != id {
                assert forall|i: int| 0 <= i < fs.drop_first().len() implies fs.drop_first()[
                    i
                ].file_id != id by {
                    assert(fs[i + 1].file_id != id);
                }
            }
        }
    }
}

/// A bucket lookup by name misses exactly when no row carries the name.
pub proof fn lemma_find_bucket_by_name_none(bs: Seq<BucketV>, name: Seq<char>)
    ensures
        (find_bucket_by_name(bs, name) is None) <==> (forall|i: int|
            0 <= i < bs.len() ==> bs[i].bucket_name != name),
    decreases bs.len(),
{
    if bs.len() > 0 {
        lemma_find_bucket_by_name_none(bs.drop_first(), name);
        if bs[0].bucket_name != name {
            if find_bucket_by_name(bs, name) is None {
                assert forall|i: int| 0 <= i < bs.len() implies bs[i].bucket_name != name by {
                    if i > 0 {
                        assert(bs.drop_first()[i - 1].bucket_name != name);
                    }
                }
            }
            if forall|i: int| 0 <= i < bs.len() ==> bs[i].bucket_name != name {
                assert forall|i: int| 0 <= i < bs.drop_first().len() implies bs.drop_first()[
                    i
                ].bucket_name != name by {
                    assert(bs[i + 1].bucket_name != name);
                }
            }
        }
    }
}

/// A bucket lookup by identifier misses exactly when no row carries the
/// identifier.
pub proof fn lemma_find_bucket_by_id_none(bs: Seq<BucketV>, id: int)
    ensures
        (find_bucket_by_id(bs, id) is None) <==> (forall|i: int|
            0 <= i < bs.len() ==> bs[i].bucket_id != id),
    decreases bs.len(),
{
    if bs.len() > 0 {
        lemma_find_bucket_by_id_none(bs.drop_first(), id);
        if bs[0].bucket_id != id {
            if find_bucket_by_id(bs, id) is None {
                assert forall|i: int| 0 <= i < bs.len() implies bs[i].bucket_id != id by {
                    if i > 0 {
                        assert(bs.drop_first()[i - 1].bucket_id != id);
                    }
                }
            }
            if forall|i: int| 0 <= i < bs.len() ==> bs[i].bucket_id != id {
                assert forall|i: int| 0 <= i < bs.drop_first().len() implies bs.drop_first()[
                    i
                ].bucket_id != id by {
                    assert(bs[i + 1].bucket_id != id);
                }
            }
        }
    }
}

/// A filtered bucket table keeps identifiers and names distinct and its rows'
/// invariants intact.
pub proof fn lemma_filter_buckets_distinct(s: Seq<BucketV>, pred: spec_fn(BucketV) -> bool)
    requires
        forall|i: int, j: int| 0 <= i < j < s.len() ==> s[i].bucket_id != s[j].bucket_id,
        forall|i: int, j: int| 0 <= i < j < s.len() ==> s[i].bucket_name != s[j].bucket_name,
        forall|i: int| 0 <= i < s.len() ==> bucket_inv(#[trigger] s[i]),
    ensures
        forall|i: int, j: int|
            0 <= i < j < s.filter(pred).len() ==> s.filter(pred)[i].bucket_id != s.filter(
                pred,
            )[j].bucket_id,
        forall|i: int, j: int|
            0 <= i < j < s.filter(pred).len() ==> s.filter(pred)[i].bucket_name != s.filter(
                pred,
            )[j].bucket_name,
        forall|i: int| 0 <= i < s.filter(pred).len() ==> bucket_inv(#[trigger] s.filter(pred)[i]),
    decreases s.len(),
{
    reveal(Seq::filter);
    if s.len() > 0 {
        let prefix = s.drop_last();
        assert forall|i: int| 0 <= i < prefix.len() implies bucket_inv(#[trigger] prefix[i]) by {
            assert(prefix[i] == s[i]);
        }
        lemma_filter_buckets_distinct(prefix, pred);
        let sub = prefix.filter(pred);
        if pred(s.last()) {
            assert forall|i: int|
                0 <= i < sub.len() implies sub[i].bucket_id != s.last().bucket_id
                && sub[i].bucket_name != s.last().bucket_name by {
                assert(sub.contains(sub[i]));
                prefix.lemma_filter_contains_rev(pred, sub[i]);
                let k = choose|k: int| 0 <= k < prefix.len() && prefix[k] == sub[i];
                assert(s[k] == sub[i]);
                assert(s[k].bucket_id != s[s.len() - 1].bucket_id);
                assert(s[k].bucket_name != s[s.len() - 1].bucket_name);
            }
        }
    }
}

/// A filtered file table keeps identifiers distinct.
pub proof fn lemma_filter_files_distinct(s: Seq<FileV>, pred: spec_fn(FileV) -> bool)
    requires
        forall|i: int, j: int| 0 <= i < j < s.len() ==> s[i].file_id != s[j].file_id,
    ensures
        forall|i: int, j: int|
            0 <= i < j < s.filter(pred).len() ==> s.filter(pred)[i].file_id != s.filter(
                pred,
            )[j].file_id,
    decreases s.len(),
{
    reveal(Seq::filter);
    if s.len() > 0 {
        let prefix = s.drop_last();
        lemma_filter_files_distinct(prefix, pred);
        let sub = prefix.filter(pred);
        if pred(s.last()) {
            assert forall|i: int| 0 <= i < sub.len() implies sub[i].file_id
                != s.last().file_id by {
                assert(sub.contains(sub[i]));
                prefix.lemma_filter_contains_rev(pred, sub[i]);
                let k = choose|k: int| 0 <= k < prefix.len() && prefix[k] == sub[i];
                assert(s[k] == sub[i]);
                assert(s[k].file_id != s[s.len() - 1].file_id);
            }
        }
    }
}

// ---------------------------------------------------------------------------
// The catalog operations.
// ---------------------------------------------------------------------------

impl Catalog {
    /// A catalog with both tables empty.
    pub fn new() -> (r: Catalog)
        ensures
            r@.buckets == Seq::<BucketV>::empty(),
            r@.files == Seq::<FileV>::empty(),
            catalog_wf(r@),
    {
        let r = Catalog { buckets: Vec::new(), files: Vec::new() };
        proof {
            assert(r@.buckets =~= Seq::<BucketV>::empty());
            assert(r@.files =~= Seq::<FileV>::empty());
        }
        r
    }

    /// Copies of all bucket rows owned by `user_id`.
    pub fn list_buckets_by_user(&self, user_id: u128) -> (r: Vec<Bucket>)
        ensures
            bucket_views(r@) == buckets_of_user(self@.buckets, user_id as int),
    {
        let ghost bs = self@.buckets;
        let mut out: Vec<Bucket> = Vec::new();
        proof {
            reveal(Seq::filter);
            assert(bucket_views(out@) =~= buckets_of_user(bs.take(0), user_id as int));
        }
        let mut i: usize = 0;
        while i < self.buckets.len()
            invariant
                i <= self.buckets@.len(),
                bs == bucket_views(self.buckets@),
                bucket_views(out@) == buckets_of_user(bs.take(i as int), user_id as int),
            decreases self.buckets@.len() - i,
        {
            if self.buckets[i].user_id == user_id {
                out.push(self.buckets[i].duplicate());
            }
            i = i + 1;
            proof {
                reveal(Seq::filter);
                let t = bs.take(i as int);
                assert(t.drop_last() =~= bs.take(i - 1));
                assert(t.last() == bs[i - 1]);
                assert(bucket_views(out@) =~= buckets_of_user(t, user_id as int));
            }
        }
        proof {
            assert(bs.take(bs.len() as int) =~= bs);
        }
        out
    }

    /// The bucket row of that name, if any; the first match is returned, and
    /// under well-formedness there is at most one.
    pub fn get_bucket_by_name(&self, bucket_name: &str) -> (r: Option<Bucket>)
        ensures
            match r {
                Some(b) => has_bucket_name(self@.buckets, bucket_name@) && b@ == bucket_by_name(
                    self@.buckets,
                    bucket_name@,
                ),
                None => !has_bucket_name(self@.buckets, bucket_name@),
            },
    {
        let ghost bs = self@.buckets;
        proof {
            assert(bs.skip(0) =~= bs);
        }
        let mut i: usize = 0;
        while i < self.buckets.len()
            invariant
                i <= self.buckets@.len(),
                bs == bucket_views(self.buckets@),
                find_bucket_by_name(bs, bucket_name@) == find_bucket_by_name(
                    bs.skip(i as int),
                    bucket_name@,
                ),
            decreases self.buckets@.len() - i,
        {
            let hit = str_eq(self.buckets[i].bucket_name.as_str(), bucket_name);
            proof {
                assert(bs.skip(i as int)[0] == bs[i as int]);
                assert(bs.skip(i as int).drop_first() =~= bs.skip(i + 1));
            }
            if hit {
                return Some(self.buckets[i].duplicate());
            }
            i = i + 1;
        }
        proof {
            assert(bs.skip(bs.len() as int) =~= Seq::<BucketV>::empty());
        }
        None
    }

    /// The bucket row of that identifier, if any.
    pub fn get_bucket_by_id(&self, bucket_id: u128) -> (r: Option<Bucket>)
        ensures
            match r {
                Some(b) => has_bucket_id(self@.buckets, bucket_id as int) && b@
                    == find_bucket_by_id(self@.buckets, bucket_id as int)->0,
                None => !has_bucket_id(self@.buckets, bucket_id as int),
            },
    {
        let ghost bs = self@.buckets;
        proof {
            assert(bs.skip(0) =~= bs);
        }
        let mut i: usize = 0;
        while i < self.buckets.len()
            invariant
                i <= self.buckets@.len(),
                bs == bucket_views(self.buckets@),
                find_bucket_by_id(bs, bucket_id as int) == find_bucket_by_id(
                    bs.skip(i as int),
                    bucket_id as int,
                ),
            decreases self.buckets@.len() - i,
        {
            let hit = self.buckets[i].bucket_id == bucket_id;
            proof {
                assert(bs.skip(i as int)[0] == bs[i as int]);
                assert(bs.skip(i as int).drop_first() =~= bs.skip(i + 1));
            }
            if hit {
                return Some(self.buckets[i].duplicate());
            }
            i = i + 1;
        }
        proof {
            assert(bs.skip(bs.len() as int) =~= Seq::<BucketV>::empty());
        }
        None
    }

    /// All bucket names in the catalog, in catalog order.
    pub fn list_bucket_names(&self) -> (r: Vec<crate::bucket::BucketNames>)
        ensures
            r@.len() == self@.buckets.len(),
            forall|i: int|
                0 <= i < r@.len() ==> (#[trigger] r@[i]).bucket_name@
                    == self@.buckets[i].bucket_name,
    {
        let mut out: Vec<crate::bucket::BucketNames> = Vec::new();
        let mut i: usize = 0;
        while i < self.buckets.len()
            invariant
                i <= self.buckets@.len(),
                out@.len() == i,
                forall|j: int|
                    0 <= j < i ==> (#[trigger] out@[j]).bucket_name@ == bucket_views(
                        self.buckets@,
                    )[j].bucket_name,
            decreases self.buckets@.len() - i,
        {
            out.push(
                crate::bucket::BucketNames { bucket_name: self.buckets[i].bucket_name.clone() },
            );
            i = i + 1;
        }
        out
    }

    /// Inserts a bucket row. Fails with a uniqueness violation if the name or
    /// the identifier is already taken; on any failure nothing changes.
    pub fn insert_bucket(&mut self, bucket: Bucket, fault: bool) -> (r: Result<(), CatalogError>)
        requires
            catalog_wf(old(self)@),
            bucket_inv(bucket@),
        ensures
            catalog_wf(final(self)@),
            final(self)@.files == old(self)@.files,
            match r {
                Ok(()) => !fault && !has_bucket_name(old(self)@.buckets, bucket@.bucket_name)
                    && !has_bucket_id(old(self)@.buckets, bucket@.bucket_id) && final(self)@.buckets == old(self)@.buckets.push(bucket@),
                Err(CatalogError::BackendFailure) => fault && final(self)@ == old(self)@,
                Err(CatalogError::UniquenessViolation) => !fault && (has_bucket_name(
                    old(self)@.buckets,
                    bucket@.bucket_name,
                ) || has_bucket_id(old(self)@.buckets, bucket@.bucket_id)) && final(self)@ == old(self)@,
            },
    {
        if fault {
            return Err(CatalogError::BackendFailure);
        }
        let ghost bs = self@.buckets;
        proof {
            assert(bs.skip(0) =~= bs);
        }
        let mut i: usize = 0;
        while i < self.buckets.len()
            invariant
                i <= self.buckets@.len(),
                *self == *old(self),
                !fault,
                catalog_wf(old(self)@),
                bs == bucket_views(self.buckets@),
                find_bucket_by_name(bs, bucket@.bucket_name) == find_bucket_by_name(
                    bs.skip(i as int),
                    bucket@.bucket_name,
                ),
                find_bucket_by_id(bs, bucket@.bucket_id) == find_bucket_by_id(
                    bs.skip(i as int),
                    bucket@.bucket_id,
                ),
            decreases self.buckets@.len() - i,
        {
            let hit = self.buckets[i].bucket_id == bucket.bucket_id || str_eq(
                self.buckets[i].bucket_name.as_str(),
                bucket.bucket_name.as_str(),
            );
            proof {
                assert(bs.skip(i as int)[0] == bs[i as int]);
                assert(bs.skip(i as int).drop_first() =~= bs.skip(i + 1));
            }
            if hit {
                return Err(CatalogError::UniquenessViolation);
            }
            i = i + 1;
        }
        proof {
            assert(bs.skip(bs.len() as int) =~= Seq::<BucketV>::empty());
        }
        let ghost b = bucket@;
        self.buckets.push(bucket);
        proof {
            assert(bucket_views(self.buckets@) =~= bs.push(b));
            lemma_find_bucket_by_name_none(bs, b.bucket_name);
            lemma_find_bucket_by_id_none(bs, b.bucket_id);
            let nbs = self@.buckets;
            assert(nbs == bs.push(b));
            assert forall|p: int, q: int| 0 <= p < q < nbs.len() implies nbs[p].bucket_id
                != nbs[q].bucket_id && nbs[p].bucket_name != nbs[q].bucket_name by {
                if q < bs.len() {
                    assert(nbs[p] == bs[p] && nbs[q] == bs[q]);
                } else {
                    assert(nbs[p] == bs[p] && nbs[q] == b);
                }
            }
            assert forall|p: int| 0 <= p < nbs.len() implies bucket_inv(#[trigger] nbs[p]) by {
                if p < bs.len() {
                    assert(nbs[p] == bs[p]);
                } else {
                    assert(nbs[p] == b);
                }
            }
            assert(self@.files == old(self)@.files);
            assert(catalog_wf(self@));
        }
        Ok(())
    }

    /// Deletes every bucket row whose identifier is listed, in one statement:
    /// either all of them vanish or, on a backend fault, none do.
    pub fn delete_buckets(&mut self, bucket_ids: &Vec<u128>, fault: bool) -> (r: Result<
        (),
        CatalogError,
    >)
        requires
            catalog_wf(old(self)@),
        ensures
            catalog_wf(final(self)@),
            final(self)@.files == old(self)@.files,
            match r {
                Ok(()) => !fault && final(self)@.buckets == buckets_without_ids(
                    old(self)@.buckets,
                    bucket_ids@,
                ),
                Err(CatalogError::BackendFailure) => fault && final(self)@ == old(self)@,
                Err(CatalogError::UniquenessViolation) => false,
            },
    {
        if fault {
            return Err(CatalogError::BackendFailure);
        }
        let ghost bs = self@.buckets;
        let mut kept: Vec<Bucket> = Vec::new();
        proof {
            reveal(Seq::filter);
            assert(bucket_views(kept@) =~= buckets_without_ids(bs.take(0), bucket_ids@));
        }
        let mut i: usize = 0;
        while i < self.buckets.len()
            invariant
                i <= self.buckets@.len(),
                *self == *old(self),
                !fault,
                catalog_wf(old(self)@),
                bs == bucket_views(self.buckets@),
                bucket_views(kept@) == buckets_without_ids(bs.take(i as int), bucket_ids@),
            decreases self.buckets@.len() - i,
        {
            if !ids_contains(bucket_ids, self.buckets[i].bucket_id) {
                kept.push(self.buckets[i].duplicate());
            }
            i = i + 1;
            proof {
                reveal(Seq::filter);
                let t = bs.take(i as int);
                assert(t.drop_last() =~= bs.take(i - 1));
                assert(t.last() == bs[i - 1]);
                assert(bucket_views(kept@) =~= buckets_without_ids(t, bucket_ids@));
            }
        }
        proof {
            assert(bs.take(bs.len() as int) =~= bs);
            lemma_filter_buckets_distinct(bs, bucket_id_not_in(bucket_ids@));
        }
        self.buckets = kept;
        proof {
            let nbs = self@.buckets;
            assert(nbs == buckets_without_ids(bs, bucket_ids@));
            assert forall|p: int, q: int| 0 <= p < q < nbs.len() implies nbs[p].bucket_id
                != nbs[q].bucket_id && nbs[p].bucket_name != nbs[q].bucket_name by {
                assert(nbs[p] == buckets_without_ids(bs, bucket_ids@)[p]);
                assert(nbs[q] == buckets_without_ids(bs, bucket_ids@)[q]);
            }
            assert forall|p: int| 0 <= p < nbs.len() implies bucket_inv(#[trigger] nbs[p]) by {
                assert(nbs[p] == buckets_without_ids(bs, bucket_ids@)[p]);
            }
            assert(self@.files == old(self)@.files);
            assert(catalog_wf(self@));
        }
        Ok(())
    }

    /// Copies of all file rows owned by `user_id`.
    pub fn list_files_by_user(&self, user_id: u128) -> (r: Vec<UserFile>)
        ensures
            file_views(r@) == files_of_user(self@.files, user_id as int),
    {
        let ghost fs = self@.files;
        let mut out: Vec<UserFile> = Vec::new();
        proof {
            reveal(Seq::filter);
            assert(file_views(out@) =~= files_of_user(fs.take(0), user_id as int));
        }
        let mut i: usize = 0;
        while i < self.files.len()
            invariant
                i <= self.files@.len(),
                fs == file_views(self.files@),
                file_views(out@) == files_of_user(fs.take(i as int), user_id as int),
            decreases self.files@.len() - i,
        {
            if self.files[i].user_id == user_id {
                out.push(self.files[i].duplicate());
            }
            i = i + 1;
            proof {
                reveal(Seq::filter);
                let t = fs.take(i as int);
                assert(t.drop_last() =~= fs.take(i - 1));
                assert(t.last() == fs[i - 1]);
                assert(file_views(out@) =~= files_of_user(t, user_id as int));
            }
        }
        proof {
            assert(fs.take(fs.len() as int) =~= fs);
        }
        out
    }

    /// The file row of that identifier, if any; identifiers are unique under
    /// well-formedness, so there is at most one.
    pub fn get_file_by_id(&self, file_id: u128) -> (r: Option<UserFile>)
        ensures
            match r {
                Some(f) => has_file_id(self@.files, file_id as int) && f@ == file_by_id(
                    self@.files,
                    file_id as int,
                ),
                None => !has_file_id(self@.files, file_id as int),
            },
    {
        let ghost fs = self@.files;
        proof {
            assert(fs.skip(0) =~= fs);
        }
        let mut i: usize = 0;
        while i < self.files.len()
            invariant
                i <= self.files@.len(),
                fs == file_views(self.files@),
                find_file(fs, file_id as int) == find_file(fs.skip(i as int), file_id as int),
            decreases self.files@.len() - i,
        {
            let hit = self.files[i].file_id == file_id;
            proof {
                assert(fs.skip(i as int)[0] == fs[i as int]);
                assert(fs.skip(i as int).drop_first() =~= fs.skip(i + 1));
            }
            if hit {
                return Some(self.files[i].duplicate());
            }
            i = i + 1;
        }
        proof {
            assert(fs.skip(fs.len() as int) =~= Seq::<FileV>::empty());
        }
        None
    }

    /// Inserts a file row. Fails with a uniqueness violation if the
    /// identifier is already taken; on any failure nothing changes.
    pub fn insert_file(&mut self, file: UserFile, fault: bool) -> (r: Result<(), CatalogError>)
        requires
            catalog_wf(old(self)@),
        ensures
            catalog_wf(final(self)@),
            final(self)@.buckets == old(self)@.buckets,
            match r {
                Ok(()) => !fault && !has_file_id(old(self)@.files, file@.file_id) && final(self)@.files == old(self)@.files.push(file@),
                Err(CatalogError::BackendFailure) => fault && final(self)@ == old(self)@,
                Err(CatalogError::UniquenessViolation) => !fault && has_file_id(
                    old(self)@.files,
                    file@.file_id,
                ) && final(self)@ == old(self)@,
            },
    {
        if fault {
            return Err(CatalogError::BackendFailure);
        }
        let ghost fs = self@.files;
        proof {
            assert(fs.skip(0) =~= fs);
        }
        let mut i: usize = 0;
        while i < self.files.len()
            invariant
                i <= self.files@.len(),
                *self == *old(self),
                !fault,
                catalog_wf(old(self)@),
                fs == file_views(self.files@),
                find_file(fs, file@.file_id) == find_file(fs.skip(i as int), file@.file_id),
            decreases self.files@.len() - i,
        {
            let hit = self.files[i].file_id == file.file_id;
            proof {
                assert(fs.skip(i as int)[0] == fs[i as int]);
                assert(fs.skip(i as int).drop_first() =~= fs.skip(i + 1));
            }
            if hit {
                return Err(CatalogError::UniquenessViolation);
            }
            i = i + 1;
        }
        proof {
            assert(fs.skip(fs.len() as int) =~= Seq::<FileV>::empty());
        }
        let ghost f = file@;
        self.files.push(file);
        proof {
            assert(file_views(self.files@) =~= fs.push(f));
            lemma_find_file_none(fs, f.file_id);
            let nfs = self@.files;
            assert(nfs == fs.push(f));
            assert forall|p: int, q: int| 0 <= p < q < nfs.len() implies nfs[p].file_id
                != nfs[q].file_id by {
                if q < fs.len() {
                    assert(nfs[p] == fs[p] && nfs[q] == fs[q]);
                } else {
                    assert(nfs[p] == fs[p] && nfs[q] == f);
                }
            }
            assert(self@.buckets == old(self)@.buckets);
            assert(catalog_wf(self@));
        }
        Ok(())
    }

    /// Deletes the file row of that identifier; on a backend fault nothing
    /// changes.
    pub fn delete_file(&mut self, file_id: u128, fault: bool) -> (r: Result<(), CatalogError>)
        requires
            catalog_wf(old(self)@),
        ensures
            catalog_wf(final(self)@),
            final(self)@.buckets == old(self)@.buckets,
            match r {
                Ok(()) => !fault && final(self)@.files == files_without_id(
                    old(self)@.files,
                    file_id as int,
                ),
                Err(CatalogError::BackendFailure) => fault && final(self)@ == old(self)@,
                Err(CatalogError::UniquenessViolation) => false,
            },
    {
        if fault {
            return Err(CatalogError::BackendFailure);
        }
        let ghost fs = self@.files;
        let mut kept: Vec<UserFile> = Vec::new();
        proof {
            reveal(Seq::filter);
            assert(file_views(kept@) =~= files_without_id(fs.take(0), file_id as int));
        }
        let mut i: usize = 0;
        while i < self.files.len()
            invariant
                i <= self.files@.len(),
                *self == *old(self),
                !fault,
                catalog_wf(old(self)@),
                fs == file_views(self.files@),
                file_views(kept@) == files_without_id(fs.take(i as int), file_id as int),
            decreases self.files@.len() - i,
        {
            if self.files[i].file_id != file_id {
                kept.push(self.files[i].duplicate());
            }
            i = i + 1;
            proof {
                reveal(Seq::filter);
                let t = fs.take(i as int);
                assert(t.drop_last() =~= fs.take(i - 1));
                assert(t.last() == fs[i - 1]);
                assert(file_views(kept@) =~= files_without_id(t, file_id as int));
            }
        }
        proof {
            assert(fs.take(fs.len() as int) =~= fs);
            lemma_filter_files_distinct(fs, file_id_not(file_id as int));
        }
        self.files = kept;
        proof {
            let nfs = self@.files;
            assert(nfs == files_without_id(fs, file_id as int));
            assert forall|p: int, q: int| 0 <= p < q < nfs.len() implies nfs[p].file_id
                != nfs[q].file_id by {
                assert(nfs[p] == files_without_id(fs, file_id as int)[p]);
                assert(nfs[q] == files_without_id(fs, file_id as int)[q]);
            }
            assert(self@.buckets == old(self)@.buckets);
            assert(catalog_wf(self@));
        }
        Ok(())
    }
}

/// Whether the identifier occurs in the list.
pub fn ids_contains(ids: &Vec<u128>, id: u128) -> (r: bool)
    ensures
        r == ids_contain(ids@, id as int),
{
    let mut i: usize = 0;
    while i < ids.len()
        invariant
            i <= ids@.len(),
            forall|j: int| 0 <= j < i ==> ids@[j] as int != id as int,
        decreases ids@.len() - i,
    {
        if ids[i] == id {
            return true;
        }
        i = i + 1;
    }
    false
}

} // verus!
