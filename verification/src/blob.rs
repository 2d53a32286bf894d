use vstd::prelude::*;

use crate::utility::str_eq;

verus! {

// ---------------------------------------------------------------------------
// The blob store: one directory per bucket, named by the bucket's name, and
// one blob per file, keyed by the file's generated identifier. A blob is
// either fully present with its bytes or entirely absent; a `fault` argument
// on each mutating operation stands for the backing storage refusing the
// change, which leaves the store untouched.
// ---------------------------------------------------------------------------

/// How the blob store can refuse an operation.
#[derive(Clone, Copy, Debug, PartialEq, Eq, Structural)]
pub enum BlobError {
    /// The directory or blob is already present; nothing was overwritten.
    AlreadyExists,
    /// The backing storage failed; nothing changed.
    BackendFailure,
}

/// One stored blob: the bytes filed under a generated identifier.
pub struct BlobEntry {
    pub file_id: u128,
    pub bytes: Vec<u8>,
}

/// The mathematical image of a stored blob.
pub ghost struct BlobV {
    pub file_id: int,
    pub bytes: Seq<u8>,
}

impl View for BlobEntry {
    type V = BlobV;

    open spec fn view(&self) -> BlobV {
        BlobV { file_id: self.file_id as int, bytes: self.bytes@ }
    }
}

/// The views of a sequence of blobs.
pub open spec fn blob_views(s: Seq<BlobEntry>) -> Seq<BlobV> {
    s.map_values(|b: BlobEntry| b@)
}

/// The views of a sequence of owned strings.
pub open spec fn str_views(s: Seq<String>) -> Seq<Seq<char>> {
    s.map_values(|n: String| n@)
}

/// The blob store's directories and blobs.
pub struct BlobStore {
    pub dirs: Vec<String>,
    pub blobs: Vec<BlobEntry>,
}

/// The mathematical image of the blob store.
pub ghost struct BlobStoreV {
    pub dirs: Seq<Seq<char>>,
    pub blobs: Seq<BlobV>,
}

impl View for BlobStore {
    type V = BlobStoreV;

    open spec fn view(&self) -> BlobStoreV {
        BlobStoreV { dirs: str_views(self.dirs@), blobs: blob_views(self.blobs@) }
    }
}

// ---------------------------------------------------------------------------
// Spec-level lookups: first match, front to back.
// ---------------------------------------------------------------------------

pub open spec fn dir_exists(dirs: Seq<Seq<char>>, name: Seq<char>) -> bool
    decreases dirs.len(),
{
    if dirs.len() == 0 {
        false
    } else if dirs[0] == name {
        true
    } else {
        dir_exists(dirs.drop_first(), name)
    }
}

pub open spec fn find_blob(blobs: Seq<BlobV>, id: int) -> Option<BlobV>
    decreases blobs.len(),
{
    if blobs.len() == 0 {
        None
    } else if blobs[0].file_id == id {
        Some(blobs[0])
    } else {
        find_blob(blobs.drop_first(), id)
    }
}

pub open spec fn has_blob(blobs: Seq<BlobV>, id: int) -> bool {
    find_blob(blobs, id) is Some
}

/// The bytes stored under an identifier.
pub open spec fn blob_bytes(blobs: Seq<BlobV>, id: int) -> Seq<u8>
    recommends
        has_blob(blobs, id),
{
    find_blob(blobs, id)->0.bytes
}

/// Whether `name` occurs among the owned strings `names`.
pub open spec fn names_contain(names: Seq<Seq<char>>, name: Seq<char>) -> bool {
    exists|k: int| 0 <= k < names.len() && names[k] == name
}

/// The predicate keeping the directories that removing `name` spares.
pub open spec fn dir_not(name: Seq<char>) -> spec_fn(Seq<char>) -> bool {
    |d: Seq<char>| d != name
}

/// The directories after removing the one named `name`.
pub open spec fn dirs_without(dirs: Seq<Seq<char>>, name: Seq<char>) -> Seq<Seq<char>> {
    dirs.filter(dir_not(name))
}

/// The predicate keeping the directories that a batch removal spares.
pub open spec fn dir_not_in(names: Seq<Seq<char>>) -> spec_fn(Seq<char>) -> bool {
    |d: Seq<char>| !names_contain(names, d)
}

/// The directories after the batch removal of `names`.
pub open spec fn dirs_without_names(dirs: Seq<Seq<char>>, names: Seq<Seq<char>>) -> Seq<
    Seq<char>,
> {
    dirs.filter(dir_not_in(names))
}

/// The predicate keeping the blobs that removing `id` spares.
pub open spec fn blob_id_not(id: int) -> spec_fn(BlobV) -> bool {
    |b: BlobV| b.file_id != id
}

/// The blobs after removing the one keyed `id`.
pub open spec fn blobs_without(blobs: Seq<BlobV>, id: int) -> Seq<BlobV> {
    blobs.filter(blob_id_not(id))
}

/// Blob-store well-formedness: directory names and blob identifiers are
/// unique.
pub open spec fn blob_store_wf(s: BlobStoreV) -> bool {
    &&& forall|i: int, j: int| 0 <= i < j < s.dirs.len() ==> s.dirs[i] != s.dirs[j]
    &&& forall|i: int, j: int|
        0 <= i < j < s.blobs.len() ==> s.blobs[i].file_id != s.blobs[j].file_id
}

// ---------------------------------------------------------------------------
// Lemmas about the lookups.
// ---------------------------------------------------------------------------

/// A directory lookup misses exactly when no directory carries the name.
pub proof fn lemma_dir_exists_iff(dirs: Seq<Seq<char>>, name: Seq<char>)
    ensures
        dir_exists(dirs, name) <==> exists|i: int| 0 <= i < dirs.len() && dirs[i] == name,
    decreases dirs.len(),
{
    if dirs.len() > 0 {
        lemma_dir_exists_iff(dirs.drop_first(), name);
        if dirs[0] != name {
            if dir_exists(dirs, name) {
                let i = choose|i: int|
                    0 <= i < dirs.drop_first().len() && dirs.drop_first()[i] == name;
                assert(dirs[i + 1] == name);
            }
            if exists|i: int| 0 <= i < dirs.len() && dirs[i] == name {
                let i = choose|i: int| 0 <= i < dirs.len() && dirs[i] == name;
                assert(dirs.drop_first()[i - 1] == name);
            }
        }
    }
}

/// A blob lookup misses exactly when no blob carries the identifier.
pub proof fn lemma_find_blob_none(blobs: Seq<BlobV>, id: int)
    ensures
        (find_blob(blobs, id) is None) <==> (forall|i: int|
            0 <= i < blobs.len() ==> blobs[i].file_id != id),
    decreases blobs.len(),
{
    if blobs.len() > 0 {
        lemma_find_blob_none(blobs.drop_first(), id);
        if blobs[0].file_id != id {
            if find_blob(blobs, id) is None {
                assert forall|i: int| 0 <= i < blobs.len() implies blobs[i].file_id != id by {
                    if i > 0 {
                        assert(blobs.drop_first()[i - 1].file_id != id);
                    }
                }
            }
            if forall|i: int| 0 <= i < blobs.len() ==> blobs[i].file_id != id {
                assert forall|i: int| 0 <= i < blobs.drop_first().len() implies blobs.drop_first()[
                    i
                ].file_id != id by {
                    assert(blobs[i + 1].file_id != id);
                }
            }
        }
    }
}

/// A filtered sequence of pairwise-distinct directory names stays
/// pairwise-distinct.
pub proof fn lemma_filter_dirs_distinct(s: Seq<Seq<char>>, pred: spec_fn(Seq<char>) -> bool)
    requires
        forall|i: int, j: int| 0 <= i < j < s.len() ==> s[i] != s[j],
    ensures
        forall|i: int, j: int|
            0 <= i < j < s.filter(pred).len() ==> s.filter(pred)[i] != s.filter(pred)[j],
    decreases s.len(),
{
    reveal(Seq::filter);
    if s.len() > 0 {
        let prefix = s.drop_last();
        lemma_filter_dirs_distinct(prefix, pred);
        let sub = prefix.filter(pred);
        if pred(s.last()) {
            assert forall|i: int| 0 <= i < sub.len() implies sub[i] != s.last() by {
                assert(sub.contains(sub[i]));
                prefix.lemma_filter_contains_rev(pred, sub[i]);
                let k = choose|k: int| 0 <= k < prefix.len() && prefix[k] == sub[i];
                assert(s[k] == sub[i]);
                assert(s[k] != s[s.len() - 1]);
            }
        }
    }
}

/// A filtered sequence of blobs keeps identifiers distinct.
pub proof fn lemma_filter_blobs_distinct(s: Seq<BlobV>, pred: spec_fn(BlobV) -> bool)
    requires
        forall|i: int, j: int| 0 <= i < j < s.len() ==> s[i].file_id != s[j].file_id,
    ensures
        forall|i: int, j: int|
            0 <= i < j < s.filter(pred).len() ==> s.filter(pred)[i].file_id != s.filter(
                pred,
            )[j].file_id,
    decreases s.len(),
{
    reveal(Seq::filter);
    if s.len() > 0 {
        let prefix = s.drop_last();
        lemma_filter_blobs_distinct(prefix, pred);
        let sub = prefix.filter(pred);
        if pred(s.last()) {
            assert forall|i: int| 0 <= i < sub.len() implies sub[i].file_id
                != s.last().file_id by {
                assert(sub.contains(sub[i]));
                prefix.lemma_filter_contains_rev(pred, sub[i]);
                let k = choose|k: int| 0 <= k < prefix.len() && prefix[k] == sub[i];
                assert(s[k] == sub[i]);
                assert(s[k].file_id != s[s.len() - 1].file_id);
            }
        }
    }
}

/// Copies a byte vector.
pub fn copy_bytes(v: &Vec<u8>) -> (r: Vec<u8>)
    ensures
        r@ == v@,
{
    let mut out: Vec<u8> = Vec::new();
    let mut i: usize = 0;
    while i < v.len()
        invariant
            i <= v@.len(),
            out@ == v@.take(i as int),
        decreases v@.len() - i,
    {
        out.push(v[i]);
        i = i + 1;
        proof {
            assert(out@ =~= v@.take(i as int));
        }
    }
    proof {
        assert(v@.take(v@.len() as int) =~= v@);
    }
    out
}

// ---------------------------------------------------------------------------
// The blob-store operations.
// ---------------------------------------------------------------------------

impl BlobStore {
    /// A blob store with no directories and no blobs.
    pub fn new() -> (r: BlobStore)
        ensures
            r@.dirs == Seq::<Seq<char>>::empty(),
            r@.blobs == Seq::<BlobV>::empty(),
            blob_store_wf(r@),
    {
        let r = BlobStore { dirs: Vec::new(), blobs: Vec::new() };
        proof {
            assert(r@.dirs =~= Seq::<Seq<char>>::empty());
            assert(r@.blobs =~= Seq::<BlobV>::empty());
        }
        r
    }

    /// Whether a bucket directory of that name is present.
    pub fn bucket_dir_exists(&self, name: &str) -> (r: bool)
        ensures
            r == dir_exists(self@.dirs, name@),
    {
        let ghost ds = self@.dirs;
        proof {
            assert(ds.skip(0) =~= ds);
        }
        let mut i: usize = 0;
        while i < self.dirs.len()
            invariant
                i <= self.dirs@.len(),
                ds == str_views(self.dirs@),
                dir_exists(ds, name@) == dir_exists(ds.skip(i as int), name@),
            decreases self.dirs@.len() - i,
        {
            let hit = str_eq(self.dirs[i].as_str(), name);
            proof {
                assert(ds.skip(i as int)[0] == ds[i as int]);
                assert(ds.skip(i as int).drop_first() =~= ds.skip(i + 1));
            }
            if hit {
                return true;
            }
            i = i + 1;
        }
        proof {
            assert(ds.skip(ds.len() as int) =~= Seq::<Seq<char>>::empty());
        }
        false
    }

    /// Creates the directory for a bucket. Fails if it is already present, so
    /// two bucket namespaces can never silently merge.
    pub fn create_bucket_dir(&mut self, name: &str) -> (r: Result<(), BlobError>)
        ensures
            final(self)@.blobs == old(self)@.blobs,
            match r {
                Ok(()) => !dir_exists(old(self)@.dirs, name@) && final(self)@.dirs == old(self)@.dirs.push(name@),
                Err(BlobError::AlreadyExists) => dir_exists(old(self)@.dirs, name@) && final(self)@ == old(self)@,
                Err(BlobError::BackendFailure) => false,
            },
    {
        if self.bucket_dir_exists(name) {
            return Err(BlobError::AlreadyExists);
        }
        let ghost ds = self@.dirs;
        self.dirs.push(name.to_owned());
        proof {
            assert(str_views(self.dirs@) =~= ds.push(name@));
        }
        Ok(())
    }

    /// Removes the directory for one bucket, recursively; on a backend fault
    /// nothing changes.
    pub fn remove_bucket_dir(&mut self, name: &str, fault: bool) -> (r: Result<(), BlobError>)
        ensures
            final(self)@.blobs == old(self)@.blobs,
            match r {
                Ok(()) => !fault && final(self)@.dirs == dirs_without(old(self)@.dirs, name@),
                Err(BlobError::BackendFailure) => fault && final(self)@ == old(self)@,
                Err(BlobError::AlreadyExists) => false,
            },
    {
        if fault {
            return Err(BlobError::BackendFailure);
        }
        let ghost ds = self@.dirs;
        let mut kept: Vec<String> = Vec::new();
        proof {
            reveal(Seq::filter);
            assert(str_views(kept@) =~= dirs_without(ds.take(0), name@));
        }
        let mut i: usize = 0;
        while i < self.dirs.len()
            invariant
                i <= self.dirs@.len(),
                *self == *old(self),
                ds == str_views(self.dirs@),
                str_views(kept@) == dirs_without(ds.take(i as int), name@),
            decreases self.dirs@.len() - i,
        {
            if !str_eq(self.dirs[i].as_str(), name) {
                kept.push(self.dirs[i].clone());
            }
            i = i + 1;
            proof {
                reveal(Seq::filter);
                let t = ds.take(i as int);
                assert(t.drop_last() =~= ds.take(i - 1));
                assert(t.last() == ds[i - 1]);
                assert(str_views(kept@) =~= dirs_without(t, name@));
            }
        }
        proof {
            assert(ds.take(ds.len() as int) =~= ds);
        }
        self.dirs = kept;
        Ok(())
    }

    /// Removes the directories of a whole set of buckets; on a backend fault
    /// none of them is touched.
    pub fn remove_bucket_dirs(&mut self, names: &Vec<String>, fault: bool) -> (r: Result<
        (),
        BlobError,
    >)
        ensures
            final(self)@.blobs == old(self)@.blobs,
            match r {
                Ok(()) => !fault && final(self)@.dirs == dirs_without_names(
                    old(self)@.dirs,
                    str_views(names@),
                ),
                Err(BlobError::BackendFailure) => fault && final(self)@ == old(self)@,
                Err(BlobError::AlreadyExists) => false,
            },
    {
        if fault {
            return Err(BlobError::BackendFailure);
        }
        let ghost ds = self@.dirs;
        let mut kept: Vec<String> = Vec::new();
        proof {
            reveal(Seq::filter);
            assert(str_views(kept@) =~= dirs_without_names(ds.take(0), str_views(names@)));
        }
        let mut i: usize = 0;
        while i < self.dirs.len()
            invariant
                i <= self.dirs@.len(),
                *self == *old(self),
                ds == str_views(self.dirs@),
                str_views(kept@) == dirs_without_names(ds.take(i as int), str_views(names@)),
            decreases self.dirs@.len() - i,
        {
            if !names_contains(names, self.dirs[i].as_str()) {
                kept.push(self.dirs[i].clone());
            }
            i = i + 1;
            proof {
                reveal(Seq::filter);
                let t = ds.take(i as int);
                assert(t.drop_last() =~= ds.take(i - 1));
                assert(t.last() == ds[i - 1]);
                assert(str_views(kept@) =~= dirs_without_names(t, str_views(names@)));
            }
        }
        proof {
            assert(ds.take(ds.len() as int) =~= ds);
        }
        self.dirs = kept;
        Ok(())
    }

    /// Whether a blob is stored under that identifier.
    pub fn blob_exists(&self, file_id: u128) -> (r: bool)
        ensures
            r == has_blob(self@.blobs, file_id as int),
    {
        let ghost blobs = self@.blobs;
        proof {
            assert(blobs.skip(0) =~= blobs);
        }
        let mut i: usize = 0;
        while i < self.blobs.len()
            invariant
                i <= self.blobs@.len(),
                blobs == blob_views(self.blobs@),
                find_blob(blobs, file_id as int) == find_blob(
                    blobs.skip(i as int),
                    file_id as int,
                ),
            decreases self.blobs@.len() - i,
        {
            let hit = self.blobs[i].file_id == file_id;
            proof {
                assert(blobs.skip(i as int)[0] == blobs[i as int]);
                assert(blobs.skip(i as int).drop_first() =~= blobs.skip(i + 1));
            }
            if hit {
                return true;
            }
            i = i + 1;
        }
        proof {
            assert(blobs.skip(blobs.len() as int) =~= Seq::<BlobV>::empty());
        }
        false
    }

    /// A copy of the bytes stored under that identifier, if any.
    pub fn read_blob(&self, file_id: u128) -> (r: Option<Vec<u8>>)
        ensures
            match r {
                Some(b) => has_blob(self@.blobs, file_id as int) && b@ == blob_bytes(
                    self@.blobs,
                    file_id as int,
                ),
                None => !has_blob(self@.blobs, file_id as int),
            },
    {
        let ghost blobs = self@.blobs;
        proof {
            assert(blobs.skip(0) =~= blobs);
        }
        let mut i: usize = 0;
        while i < self.blobs.len()
            invariant
                i <= self.blobs@.len(),
                blobs == blob_views(self.blobs@),
                find_blob(blobs, file_id as int) == find_blob(
                    blobs.skip(i as int),
                    file_id as int,
                ),
            decreases self.blobs@.len() - i,
        {
            let hit = self.blobs[i].file_id == file_id;
            proof {
                assert(blobs.skip(i as int)[0] == blobs[i as int]);
                assert(blobs.skip(i as int).drop_first() =~= blobs.skip(i + 1));
            }
            if hit {
                return Some(copy_bytes(&self.blobs[i].bytes));
            }
            i = i + 1;
        }
        proof {
            assert(blobs.skip(blobs.len() as int) =~= Seq::<BlobV>::empty());
        }
        None
    }

    /// Makes `bytes` the durable blob for an identifier: afterwards the blob
    /// is either fully present with exactly these bytes, or, on a fault or a
    /// collision, entirely absent with the store unchanged and any staging
    /// artifact discarded.
    pub fn write_blob(&mut self, file_id: u128, bytes: Vec<u8>, fault: bool) -> (r: Result<
        (),
        BlobError,
    >)
        ensures
            final(self)@.dirs == old(self)@.dirs,
            match r {
                Ok(()) => !fault && !has_blob(old(self)@.blobs, file_id as int) && final(self)@.blobs == old(self)@.blobs.push(
                    BlobV { file_id: file_id as int, bytes: bytes@ },
                ),
                Err(BlobError::BackendFailure) => fault && final(self)@ == old(self)@,
                Err(BlobError::AlreadyExists) => !fault && has_blob(
                    old(self)@.blobs,
                    file_id as int,
                ) && final(self)@ == old(self)@,
            },
    {
        if fault {
            return Err(BlobError::BackendFailure);
        }
        if self.blob_exists(file_id) {
            return Err(BlobError::AlreadyExists);
        }
        let ghost blobs = self@.blobs;
        let ghost b = BlobV { file_id: file_id as int, bytes: bytes@ };
        self.blobs.push(BlobEntry { file_id, bytes });
        proof {
            assert(blob_views(self.blobs@) =~= blobs.push(b));
        }
        Ok(())
    }

    /// Removes the blob stored under an identifier; on a backend fault
    /// nothing changes and the blob stays readable.
    pub fn remove_blob(&mut self, file_id: u128, fault: bool) -> (r: Result<(), BlobError>)
        ensures
            final(self)@.dirs == old(self)@.dirs,
            match r {
                Ok(()) => !fault && final(self)@.blobs == blobs_without(
                    old(self)@.blobs,
                    file_id as int,
                ),
                Err(BlobError::BackendFailure) => fault && final(self)@ == old(self)@,
                Err(BlobError::AlreadyExists) => false,
            },
    {
        if fault {
            return Err(BlobError::BackendFailure);
        }
        let ghost blobs = self@.blobs;
        let mut kept: Vec<BlobEntry> = Vec::new();
        proof {
            reveal(Seq::filter);
            assert(blob_views(kept@) =~= blobs_without(blobs.take(0), file_id as int));
        }
        let mut i: usize = 0;
        while i < self.blobs.len()
            invariant
                i <= self.blobs@.len(),
                *self == *old(self),
                blobs == blob_views(self.blobs@),
                blob_views(kept@) == blobs_without(blobs.take(i as int), file_id as int),
            decreases self.blobs@.len() - i,
        {
            if self.blobs[i].file_id != file_id {
                let entry = BlobEntry {
                    file_id: self.blobs[i].file_id,
                    bytes: copy_bytes(&self.blobs[i].bytes),
                };
                kept.push(entry);
            }
            i = i + 1;
            proof {
                reveal(Seq::filter);
                let t = blobs.take(i as int);
                assert(t.drop_last() =~= blobs.take(i - 1));
                assert(t.last() == blobs[i - 1]);
                assert(blob_views(kept@) =~= blobs_without(t, file_id as int));
            }
        }
        proof {
            assert(blobs.take(blobs.len() as int) =~= blobs);
        }
        self.blobs = kept;
        Ok(())
    }
}

/// Whether `name` occurs among the owned strings `names`.
pub fn names_contains(names: &Vec<String>, name: &str) -> (r: bool)
    ensures
        r == names_contain(str_views(names@), name@),
{
    let mut i: usize = 0;
    while i < names.len()
        invariant
            i <= names@.len(),
            forall|j: int| 0 <= j < i ==> str_views(names@)[j] != name@,
        decreases names@.len() - i,
    {
        if str_eq(names[i].as_str(), name) {
            proof {
                assert(str_views(names@)[i as int] == name@);
            }
            return true;
        }
        i = i + 1;
    }
    false
}

} // verus!
