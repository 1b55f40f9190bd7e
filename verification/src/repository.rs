//! In-memory repositories for uploaded images and produced ASCII
//! art, keyed by entity id.

use vstd::prelude::*;
use std::collections::HashMap;
use crate::entities::AsciiArt;
use crate::entities::ImageData;

verus! {

broadcast use vstd::std_specs::hash::group_hash_axioms;

/// Every entry other than `except` is carried over unchanged from
/// `before` to `after`.
pub open spec fn preserves_others<V>(
    before: Map<u128, V>,
    after: Map<u128, V>,
    except: u128,
) -> bool {
    forall|k: u128|
        k != except && #[trigger] before.contains_key(k) ==> after.contains_key(k) && after[k]
            == before[k]
}

/// A sequence extended by one element contains exactly what it
/// contained before, plus that element.
proof fn lemma_push_contains(s: Seq<u128>, x: u128, k: u128)
    ensures
        s.push(x).contains(k) <==> (s.contains(k) || k == x),
{
    if s.contains(k) {
        let i = choose|i: int| 0 <= i < s.len() && s[i] == k;
        assert(s.push(x)[i] == k);
    }
    if k == x {
        assert(s.push(x)[s.len() as int] == k);
    }
    if s.push(x).contains(k) {
        let i = choose|i: int| 0 <= i < s.push(x).len() && s.push(x)[i] == k;
        if i < s.len() {
            assert(s[i] == k);
        }
    }
}

/// Appending a fresh element keeps a sequence duplicate-free.
proof fn lemma_push_no_duplicates(s: Seq<u128>, x: u128)
    requires
        s.no_duplicates(),
        !s.contains(x),
    ensures
        s.push(x).no_duplicates(),
{
    let t = s.push(x);
    assert forall|i: int, j: int| 0 <= i < t.len() && 0 <= j < t.len() && i != j implies t[i]
        != t[j] by {
        if i < s.len() && j < s.len() {
        } else if i < s.len() {
            assert(s[i] == t[i]);
            if t[i] == x {
                assert(s.contains(x));
            }
        } else {
            assert(s[j] == t[j]);
            if t[j] == x {
                assert(s.contains(x));
            }
        }
    }
}


/// Repository interface for image storage. An implementation
/// exposes its contents as a map from id to entity, and each
/// operation says exactly how it changed them; an implementation
/// that can fail must leave the contents as they were.
pub trait ImageRepository: Sized {
    type Error;

    /// The stored entities, by id.
    spec fn store(self) -> Map<u128, ImageData>;

    /// The implementation's internal invariant.
    spec fn inv(self) -> bool;

    /// Save image data under its id, replacing any previous entry.
    fn save(&mut self, image: &ImageData) -> (r: Result<(), Self::Error>)
        requires
            old(self).inv(),
        ensures
            final(self).inv(),
            r is Ok ==> final(self).store().dom() =~= old(self).store().dom().insert(image.id),
            r is Ok ==> ImageData::congruent(final(self).store()[image.id], *image),
            r is Ok ==> preserves_others(old(self).store(), final(self).store(), image.id),
            r is Err ==> final(self).store() == old(self).store(),
    ;

    /// Find an image by id.
    fn find_by_id(&self, id: u128) -> (r: Result<Option<ImageData>, Self::Error>)
        requires
            self.inv(),
        ensures
            r is Ok ==> match r->Ok_0 {
                Some(v) => self.store().contains_key(id) && ImageData::congruent(
                    v,
                    self.store()[id],
                ),
                None => !self.store().contains_key(id),
            },
    ;

    /// Delete an image by id.
    fn delete(&mut self, id: u128) -> (r: Result<(), Self::Error>)
        requires
            old(self).inv(),
        ensures
            final(self).inv(),
            r is Ok ==> final(self).store() == old(self).store().remove(id),
            r is Err ==> final(self).store() == old(self).store(),
    ;
}

/// Repository interface for ASCII art storage, with a scan of the
/// arts produced from one image.
pub trait AsciiArtRepository: Sized {
    type Error;

    /// The stored entities, by id.
    spec fn store(self) -> Map<u128, AsciiArt>;

    /// The implementation's internal invariant.
    spec fn inv(self) -> bool;

    /// Save ASCII art under its id, replacing any previous entry.
    fn save(&mut self, ascii_art: &AsciiArt) -> (r: Result<(), Self::Error>)
        requires
            old(self).inv(),
        ensures
            final(self).inv(),
            r is Ok ==> final(self).store().dom() =~= old(self).store().dom().insert(
                ascii_art.id,
            ),
            r is Ok ==> AsciiArt::congruent(final(self).store()[ascii_art.id], *ascii_art),
            r is Ok ==> preserves_others(old(self).store(), final(self).store(), ascii_art.id),
            r is Err ==> final(self).store() == old(self).store(),
    ;

    /// Find ASCII art by id.
    fn find_by_id(&self, id: u128) -> (r: Result<Option<AsciiArt>, Self::Error>)
        requires
            self.inv(),
        ensures
            r is Ok ==> match r->Ok_0 {
                Some(v) => self.store().contains_key(id) && AsciiArt::congruent(
                    v,
                    self.store()[id],
                ),
                None => !self.store().contains_key(id),
            },
    ;

    /// Find every stored ASCII art produced from the given image.
    fn find_by_image_id(&self, image_id: u128) -> (r: Result<Vec<AsciiArt>, Self::Error>)
        requires
            self.inv(),
        ensures
            r is Ok ==> forall|i: int|
                0 <= i < r->Ok_0@.len() ==> {
                    let a = #[trigger] r->Ok_0@[i];
                    &&& a.image_id == image_id
                    &&& self.store().contains_key(a.id)
                    &&& AsciiArt::congruent(a, self.store()[a.id])
                },
            r is Ok ==> forall|k: u128|
                #[trigger] self.store().contains_key(k) && self.store()[k].image_id == image_id
                    ==> exists|i: int| 0 <= i < r->Ok_0@.len() && r->Ok_0@[i].id == k,
    ;

    /// Delete ASCII art by id.
    fn delete(&mut self, id: u128) -> (r: Result<(), Self::Error>)
        requires
            old(self).inv(),
        ensures
            final(self).inv(),
            r is Ok ==> final(self).store() == old(self).store().remove(id),
            r is Err ==> final(self).store() == old(self).store(),
    ;
}

#[derive(Debug, Clone, Copy, PartialEq, Eq, Structural)]
pub enum InMemoryImageRepositoryError {
    NotFound,
}

/// In-memory implementation of image storage for development and
/// testing.
pub struct InMemoryImageRepository {
    storage: HashMap<u128, ImageData>,
}

impl InMemoryImageRepository {
    /// The stored entities, by id.
    pub closed spec fn images(self) -> Map<u128, ImageData> {
        self.storage@
    }

    /// Create a new in-memory image repository.
    pub fn new() -> (r: Self)
        ensures
            r.images() == Map::<u128, ImageData>::empty(),
    {
        Self { storage: HashMap::new() }
    }

    /// Save image data under its id, replacing any previous entry.
    pub fn save(&mut self, image: &ImageData) -> (r: Result<(), InMemoryImageRepositoryError>)
        ensures
            r is Ok,
            final(self).images().dom() =~= old(self).images().dom().insert(image.id),
            ImageData::congruent(final(self).images()[image.id], *image),
            preserves_others(old(self).images(), final(self).images(), image.id),
    {
        self.storage.insert(image.id, image.clone());
        proof {
            assert(preserves_others(old(self).images(), self.images(), image.id)) by {
                assert forall|k: u128|
                    k != image.id && #[trigger] old(self).images().contains_key(
                        k,
                    ) implies self.images().contains_key(k) && self.images()[k] == old(
                    self,
                ).images()[k] by {}
            }
        }
        Ok(())
    }

    /// Find an image by id.
    pub fn find_by_id(&self, id: u128) -> (r: Result<
        Option<ImageData>,
        InMemoryImageRepositoryError,
    >)
        ensures
            r is Ok,
            self.images().contains_key(id) ==> (r->Ok_0 is Some && ImageData::congruent(
                r->Ok_0->Some_0,
                self.images()[id],
            )),
            !self.images().contains_key(id) ==> r->Ok_0 is None,
    {
        match self.storage.get(&id) {
            Some(v) => Ok(Some(v.clone())),
            None => Ok(None),
        }
    }

    /// Delete an image by id; an absent id is not an error.
    pub fn delete(&mut self, id: u128) -> (r: Result<(), InMemoryImageRepositoryError>)
        ensures
            r is Ok,
            final(self).images() == old(self).images().remove(id),
    {
        self.storage.remove(&id);
        Ok(())
    }
}

impl ImageRepository for InMemoryImageRepository {
    type Error = InMemoryImageRepositoryError;

    open spec fn store(self) -> Map<u128, ImageData> {
        self.images()
    }

    open spec fn inv(self) -> bool {
        true
    }

    fn save(&mut self, image: &ImageData) -> (r: Result<(), InMemoryImageRepositoryError>) {
        InMemoryImageRepository::save(self, image)
    }

    fn find_by_id(&self, id: u128) -> (r: Result<Option<ImageData>, InMemoryImageRepositoryError>) {
        InMemoryImageRepository::find_by_id(self, id)
    }

    fn delete(&mut self, id: u128) -> (r: Result<(), InMemoryImageRepositoryError>) {
        InMemoryImageRepository::delete(self, id)
    }
}

impl Default for InMemoryImageRepository {
    /// An empty repository.
    fn default() -> (r: Self)
        ensures
            r.images() == Map::<u128, ImageData>::empty(),
    {
        Self::new()
    }
}

#[derive(Debug, Clone, Copy, PartialEq, Eq, Structural)]
pub enum InMemoryAsciiArtRepositoryError {
    NotFound,
}

/// In-memory implementation of ASCII art storage for development and
/// testing. A key list accompanies the table so the stored entities
/// can be scanned.
pub struct InMemoryAsciiArtRepository {
    storage: HashMap<u128, AsciiArt>,
    keys: Vec<u128>,
}

impl InMemoryAsciiArtRepository {
    /// The stored entities, by id.
    pub closed spec fn arts(self) -> Map<u128, AsciiArt> {
        self.storage@
    }

    /// The key list mirrors the stored ids, each appearing once, and
    /// every entity is stored under its own id.
    pub closed spec fn wf(self) -> bool {
        &&& self.keys@.no_duplicates()
        &&& forall|k: u128| #[trigger] self.storage@.contains_key(k) <==> self.keys@.contains(k)
        &&& forall|k: u128| #[trigger] self.storage@.contains_key(k) ==> self.storage@[k].id == k
    }

    /// Create a new in-memory ASCII art repository.
    pub fn new() -> (r: Self)
        ensures
            r.arts() == Map::<u128, AsciiArt>::empty(),
            r.wf(),
    {
        Self { storage: HashMap::new(), keys: Vec::new() }
    }

    /// Save ASCII art under its id, replacing any previous entry.
    pub fn save(&mut self, ascii_art: &AsciiArt) -> (r: Result<
        (),
        InMemoryAsciiArtRepositoryError,
    >)
        requires
            old(self).wf(),
        ensures
            r is Ok,
            final(self).wf(),
            final(self).arts().dom() =~= old(self).arts().dom().insert(ascii_art.id),
            AsciiArt::congruent(final(self).arts()[ascii_art.id], *ascii_art),
            preserves_others(old(self).arts(), final(self).arts(), ascii_art.id),
    {
        let already = self.storage.contains_key(&ascii_art.id);
        self.storage.insert(ascii_art.id, ascii_art.clone());
        proof {
            assert(preserves_others(old(self).arts(), self.arts(), ascii_art.id)) by {
                assert forall|k: u128|
                    k != ascii_art.id && #[trigger] old(self).arts().contains_key(
                        k,
                    ) implies self.arts().contains_key(k) && self.arts()[k] == old(
                    self,
                ).arts()[k] by {}
            }
        }
        if !already {
            self.keys.push(ascii_art.id);
            proof {
                lemma_push_no_duplicates(old(self).keys@, ascii_art.id);
                assert forall|k: u128| #[trigger] self.storage@.contains_key(k) implies self.keys@.contains(
                    k,
                ) by {
                    lemma_push_contains(old(self).keys@, ascii_art.id, k);
                }
                assert forall|k: u128| self.keys@.contains(k) implies #[trigger] self.storage@.contains_key(
                    k,
                ) by {
                    lemma_push_contains(old(self).keys@, ascii_art.id, k);
                }
            }
        }
        Ok(())
    }

    /// Find ASCII art by id.
    pub fn find_by_id(&self, id: u128) -> (r: Result<
        Option<AsciiArt>,
        InMemoryAsciiArtRepositoryError,
    >)
        ensures
            r is Ok,
            self.arts().contains_key(id) ==> (r->Ok_0 is Some && AsciiArt::congruent(
                r->Ok_0->Some_0,
                self.arts()[id],
            )),
            !self.arts().contains_key(id) ==> r->Ok_0 is None,
    {
        match self.storage.get(&id) {
            Some(v) => Ok(Some(v.clone())),
            None => Ok(None),
        }
    }

    /// Find every stored ASCII art produced from the given image:
    /// one congruent copy of each matching entity, in some order.
    pub fn find_by_image_id(&self, image_id: u128) -> (r: Result<
        Vec<AsciiArt>,
        InMemoryAsciiArtRepositoryError,
    >)
        requires
            self.wf(),
        ensures
            r is Ok,
            forall|i: int|
                0 <= i < r->Ok_0@.len() ==> {
                    let a = #[trigger] r->Ok_0@[i];
                    &&& a.image_id == image_id
                    &&& self.arts().contains_key(a.id)
                    &&& AsciiArt::congruent(a, self.arts()[a.id])
                },
            forall|k: u128|
                #[trigger] self.arts().contains_key(k) && self.arts()[k].image_id == image_id
                    ==> exists|i: int| 0 <= i < r->Ok_0@.len() && r->Ok_0@[i].id == k,
            forall|i: int, j: int|
                0 <= i < j < r->Ok_0@.len() ==> #[trigger] r->Ok_0@[i].id != #[trigger] r->Ok_0@[j].id,
    {
        let n = self.keys.len();
        let mut out: Vec<AsciiArt> = Vec::new();
        let mut i: usize = 0;
        while i < n
            invariant
                self.wf(),
                n == self.keys@.len(),
                0 <= i <= n,
                forall|j: int|
                    0 <= j < out@.len() ==> {
                        let a = #[trigger] out@[j];
                        &&& a.image_id == image_id
                        &&& self.arts().contains_key(a.id)
                        &&& AsciiArt::congruent(a, self.arts()[a.id])
                    },
                forall|j: int|
                    0 <= j < out@.len() ==> self.keys@.take(i as int).contains(#[trigger] out@[j].id),
                forall|k: u128|
                    #[trigger] self.arts().contains_key(k) && self.arts()[k].image_id == image_id
                        && self.keys@.take(i as int).contains(k) ==> exists|j: int|
                        0 <= j < out@.len() && out@[j].id == k,
                forall|a: int, b: int| 0 <= a < b < out@.len() ==> #[trigger] out@[a].id != #[trigger] out@[b].id,
            decreases n - i,
        {
            let k = self.keys[i];
            proof {
                assert(self.keys@.contains(k));
            }
            let found = match self.storage.get(&k) {
                Some(a) => {
                    if a.image_id == image_id {
                        Some(a.clone())
                    } else {
                        None
                    }
                },
                None => None,
            };
            let ghost prev = out@;
            if let Some(a) = found {
                proof {
                    assert forall|b: int| 0 <= b < prev.len() implies #[trigger] prev[b].id
                        != a.id by {
                        let kt = self.keys@.take(i as int);
                        assert(kt.contains(prev[b].id));
                        let idx = choose|idx: int| 0 <= idx < kt.len() && kt[idx] == prev[b].id;
                        assert(self.keys@[idx] == prev[b].id);
                        if prev[b].id == k {
                            assert(self.keys@[idx] == self.keys@[i as int]);
                        }
                    }
                }
                out.push(a);
            }
            proof {
                let kt1 = self.keys@.take(i as int + 1);
                assert(kt1.drop_last() =~= self.keys@.take(i as int));
                assert(kt1.last() == k);
                assert forall|j: int| 0 <= j < out@.len() implies kt1.contains(
                    #[trigger] out@[j].id,
                ) by {
                    if j < prev.len() {
                        let kt = self.keys@.take(i as int);
                        assert(kt.contains(prev[j].id));
                        let idx = choose|idx: int| 0 <= idx < kt.len() && kt[idx] == prev[j].id;
                        assert(kt1[idx] == prev[j].id);
                    } else {
                        assert(kt1[i as int] == k);
                    }
                }
                assert forall|kk: u128|
                    #[trigger] self.arts().contains_key(kk) && self.arts()[kk].image_id == image_id
                        && kt1.contains(kk) implies exists|j: int|
                    0 <= j < out@.len() && out@[j].id == kk by {
                    let idx = choose|idx: int| 0 <= idx < kt1.len() && kt1[idx] == kk;
                    if idx < i as int {
                        assert(self.keys@.take(i as int)[idx] == kk);
                        assert(self.keys@.take(i as int).contains(kk));
                        let j = choose|j: int| 0 <= j < prev.len() && prev[j].id == kk;
                        assert(out@[j].id == kk);
                    } else {
                        assert(kk == k);
                        assert(out@[out@.len() - 1].id == kk);
                    }
                }
            }
            i += 1;
        }
        proof {
            assert(self.keys@.take(n as int) =~= self.keys@);
        }
        Ok(out)
    }

    /// Delete ASCII art by id; an absent id is not an error.
    pub fn delete(&mut self, id: u128) -> (r: Result<(), InMemoryAsciiArtRepositoryError>)
        requires
            old(self).wf(),
        ensures
            r is Ok,
            final(self).wf(),
            final(self).arts() == old(self).arts().remove(id),
    {
        self.storage.remove(&id);
        let n = self.keys.len();
        let mut i: usize = 0;
        while i < n
            invariant
                old(self).wf(),
                self.storage@ == old(self).storage@.remove(id),
                n == self.keys@.len(),
                0 <= i <= n,
                self.keys@ == old(self).keys@,
                forall|j: int| 0 <= j < i ==> self.keys@[j] != id,
            decreases n - i,
        {
            if self.keys[i] == id {
                self.keys.remove(i);
                proof {
                    lemma_remove_keeps_wf(old(self).keys@, i as int, id, self.storage@);
                }
                return Ok(());
            }
            i += 1;
        }
        proof {
            assert forall|k: u128| #[trigger] self.storage@.contains_key(k) implies self.keys@.contains(
                k,
            ) by {
                assert(old(self).storage@.contains_key(k));
            }
            assert forall|k: u128| self.keys@.contains(k) implies #[trigger] self.storage@.contains_key(
                k,
            ) by {
                let idx = choose|idx: int| 0 <= idx < self.keys@.len() && self.keys@[idx] == k;
                assert(self.keys@[idx] != id);
                assert(old(self).storage@.contains_key(k));
            }
        }
        Ok(())
    }
}

/// Removing the one position holding a deleted key keeps the key
/// list in step with the table.
proof fn lemma_remove_keeps_wf(keys: Seq<u128>, at: int, id: u128, m: Map<u128, AsciiArt>)
    requires
        0 <= at < keys.len(),
        keys[at] == id,
        keys.no_duplicates(),
        forall|k: u128| #[trigger] m.contains_key(k) <==> (keys.contains(k) && k != id),
    ensures
        keys.remove(at).no_duplicates(),
        forall|k: u128| #[trigger] m.contains_key(k) <==> keys.remove(at).contains(k),
{
    let t = keys.remove(at);
    assert forall|i: int, j: int| 0 <= i < t.len() && 0 <= j < t.len() && i != j implies t[i]
        != t[j] by {
        let oi = if i < at {
            i
        } else {
            i + 1
        };
        let oj = if j < at {
            j
        } else {
            j + 1
        };
        assert(t[i] == keys[oi] && t[j] == keys[oj]);
    }
    assert forall|k: u128| #[trigger] m.contains_key(k) implies t.contains(k) by {
        let idx = choose|idx: int| 0 <= idx < keys.len() && keys[idx] == k;
        if idx < at {
            assert(t[idx] == k);
        } else {
            assert(idx != at);
            assert(t[idx - 1] == k);
        }
    }
    assert forall|k: u128| t.contains(k) implies m.contains_key(k) by {
        let idx = choose|idx: int| 0 <= idx < t.len() && t[idx] == k;
        let oi = if idx < at {
            idx
        } else {
            idx + 1
        };
        assert(t[idx] == keys[oi]);
        assert(keys.contains(k));
        if k == id {
            assert(keys[oi] == keys[at]);
        }
    }
}

impl AsciiArtRepository for InMemoryAsciiArtRepository {
    type Error = InMemoryAsciiArtRepositoryError;

    open spec fn store(self) -> Map<u128, AsciiArt> {
        self.arts()
    }

    open spec fn inv(self) -> bool {
        self.wf()
    }

    fn save(&mut self, ascii_art: &AsciiArt) -> (r: Result<(), InMemoryAsciiArtRepositoryError>) {
        InMemoryAsciiArtRepository::save(self, ascii_art)
    }

    fn find_by_id(&self, id: u128) -> (r: Result<Option<AsciiArt>, InMemoryAsciiArtRepositoryError>) {
        InMemoryAsciiArtRepository::find_by_id(self, id)
    }

    fn find_by_image_id(&self, image_id: u128) -> (r: Result<
        Vec<AsciiArt>,
        InMemoryAsciiArtRepositoryError,
    >) {
        InMemoryAsciiArtRepository::find_by_image_id(self, image_id)
    }

    fn delete(&mut self, id: u128) -> (r: Result<(), InMemoryAsciiArtRepositoryError>) {
        InMemoryAsciiArtRepository::delete(self, id)
    }
}

impl Default for InMemoryAsciiArtRepository {
    /// An empty repository.
    fn default() -> (r: Self)
        ensures
            r.arts() == Map::<u128, AsciiArt>::empty(),
            r.wf(),
    {
        Self::new()
    }
}

} // verus!
