//! The dynamic, disk-backed mode: content is read at call time, and every
//! successful read is promoted into a process-wide cache that deduplicates
//! by content equality, so a transient buffer becomes a handle that stays
//! valid for the rest of the run.  The reads themselves happen at the
//! caller's edge; everything decided about their results is verified.

use vstd::prelude::*;

use crate::FileList;
use crate::clone_strings;
use crate::embed::clone_bytes;
use crate::text::decode_text;
use crate::text::spec_text_of;

verus! {

/// No two cached entries hold the same bytes.
pub open spec fn spec_cache_wf(cache: Seq<Seq<u8>>) -> bool {
    forall|i: int, j: int| 0 <= i < j < cache.len() ==> cache[i] != cache[j]
}

/// The handle the cache answers for this content: the index of the first
/// entry holding it, or the length when no entry does (where the content
/// would be inserted).
pub open spec fn spec_handle_of(cache: Seq<Seq<u8>>, content: Seq<u8>) -> int
    decreases cache.len(),
{
    if cache.len() == 0 {
        0
    } else if cache[0] == content {
        0
    } else {
        1 + spec_handle_of(cache.drop_first(), content)
    }
}

/// What promoting content does to the cache: nothing when equal bytes are
/// already cached, one appended entry otherwise.
pub open spec fn spec_promote(cache: Seq<Seq<u8>>, content: Seq<u8>) -> Seq<Seq<u8>> {
    if cache.contains(content) {
        cache
    } else {
        cache.push(content)
    }
}

proof fn lemma_handle_of_found(cache: Seq<Seq<u8>>, content: Seq<u8>, i: int)
    requires
        0 <= i <= cache.len(),
        forall|j: int| 0 <= j < i ==> cache[j] != content,
        i < cache.len() ==> cache[i] == content,
    ensures
        spec_handle_of(cache, content) == i,
    decreases cache.len(),
{
    if cache.len() > 0 && i > 0 {
        assert forall|j: int| 0 <= j < i - 1 implies cache.drop_first()[j] != content by {
            assert(cache.drop_first()[j] == cache[j + 1]);
        }
        assert(i - 1 < cache.drop_first().len() ==> cache.drop_first()[i - 1] == content);
        lemma_handle_of_found(cache.drop_first(), content, i - 1);
    }
}

/// Promoting the same content a second time changes nothing and answers
/// the same handle: the check-then-insert step is idempotent, so two calls
/// that run one after the other inside the cache's critical section observe
/// the same final cached entry.
pub proof fn lemma_promote_idempotent(cache: Seq<Seq<u8>>, content: Seq<u8>)
    ensures
        spec_promote(spec_promote(cache, content), content) == spec_promote(cache, content),
        spec_handle_of(spec_promote(cache, content), content) == spec_handle_of(cache, content),
{
    if cache.contains(content) {
        assert(spec_promote(cache, content) == cache);
    } else {
        let grown = cache.push(content);
        assert(grown[cache.len() as int] == content);
        assert(grown.contains(content));
        assert(spec_promote(grown, content) == grown);
        lemma_handle_absent(cache, content);
        lemma_handle_of_found(grown, content, cache.len() as int);
    }
}

proof fn lemma_handle_absent(cache: Seq<Seq<u8>>, content: Seq<u8>)
    requires
        !cache.contains(content),
    ensures
        spec_handle_of(cache, content) == cache.len(),
    decreases cache.len(),
{
    if cache.len() > 0 {
        assert(cache[0] != content);
        assert(!cache.drop_first().contains(content)) by {
            if cache.drop_first().contains(content) {
                let j = choose|j: int|
                    0 <= j < cache.drop_first().len() && cache.drop_first()[j] == content;
                assert(cache[j + 1] == content);
            }
        }
        lemma_handle_absent(cache.drop_first(), content);
    }
}

/// The process-wide content cache.  Entries are never evicted: a handle,
/// once answered, names the same bytes for the rest of the run.
pub struct DiskCache {
    entries: Vec<Vec<u8>>,
}

impl View for DiskCache {
    type V = Seq<Seq<u8>>;

    closed spec fn view(&self) -> Seq<Seq<u8>> {
        self.entries.deep_view()
    }
}

impl DiskCache {
    /// The empty cache, the state at the first access.
    pub fn new() -> (r: DiskCache)
        ensures
            r@ =~= Seq::<Seq<u8>>::empty(),
            spec_cache_wf(r@),
    {
        DiskCache { entries: Vec::new() }
    }

    /// How many distinct contents have been promoted so far.
    pub fn len(&self) -> (n: usize)
        ensures
            n == self@.len(),
    {
        self.entries.len()
    }

    /// The bytes a handle names, as a copy.
    pub fn content(&self, handle: usize) -> (r: Vec<u8>)
        requires
            handle < self@.len(),
        ensures
            r@ == self@[handle as int],
    {
        let r = clone_bytes(&self.entries[handle]);
        proof {
            assert(self@[handle as int] == self.entries@[handle as int]@);
        }
        r
    }

    /// The handle of the entry holding these bytes, if any entry does.
    fn find(&self, content: &Vec<u8>) -> (r: Option<usize>)
        ensures
            r matches Some(handle) ==> handle < self@.len() && self@[handle as int] == content@
                && handle as int == spec_handle_of(self@, content@),
            r is None ==> !self@.contains(content@),
    {
        let mut i: usize = 0;
        while i < self.entries.len()
            invariant
                i <= self.entries.len(),
                self@ == self.entries.deep_view(),
                forall|j: int| 0 <= j < i ==> self@[j] != content@,
            decreases self.entries.len() - i,
        {
            proof {
                assert(self@[i as int] == self.entries@[i as int]@);
            }
            if &self.entries[i] == content {
                proof {
                    assert(self.entries@[i as int]@ =~= content@);
                    lemma_handle_of_found(self@, content@, i as int);
                }
                return Some(i);
            }
            proof {
                assert(!(self.entries@[i as int]@ =~= content@));
            }
            i += 1;
        }
        proof {
            if self@.contains(content@) {
                let j = choose|j: int| 0 <= j < self@.len() && self@[j] == content@;
            }
        }
        None
    }

    /// Check-then-insert: answers the handle of an entry equal to the
    /// content, promoting the content into the cache first when no entry
    /// held it yet.  Equal bytes are never stored twice.
    pub fn promote(&mut self, content: Vec<u8>) -> (handle: usize)
        requires
            spec_cache_wf(old(self)@),
        ensures
            spec_cache_wf(final(self)@),
            final(self)@ == spec_promote(old(self)@, content@),
            handle as int == spec_handle_of(old(self)@, content@),
            handle < final(self)@.len(),
            final(self)@[handle as int] == content@,
            old(self)@.contains(content@) ==> final(self)@ == old(self)@,
    {
        match self.find(&content) {
            Some(handle) => {
                proof {
                    assert(old(self)@.contains(content@));
                }
                handle
            },
            None => {
                let handle = self.entries.len();
                let ghost pre = self.entries@;
                let ghost before = self@;
                let ghost added = content;
                self.entries.push(content);
                proof {
                    assert(self.entries@ == pre.push(added));
                    assert forall|j: int| 0 <= j < self@.len() implies self@[j] == before.push(
                        added@,
                    )[j] by {
                        if j < pre.len() {
                            assert(pre.push(added)[j] == pre[j]);
                        } else {
                            assert(pre.push(added)[j] == added);
                        }
                    }
                    assert(self@ =~= before.push(added@));
                    lemma_handle_absent(before, added@);
                    assert forall|a: int, b: int| 0 <= a < b < self@.len() implies self@[a]
                        != self@[b] by {
                        if b == before.len() {
                            assert(!before.contains(added@));
                        }
                    }
                }
                handle
            },
        }
    }
}

/// The runtime state of the dynamic mode: the path set baked in by
/// discovery, and the content cache.  Only content is fetched live; the
/// caller performs the read and hands its outcome over.
pub struct DynamicAssets {
    paths: Vec<String>,
    cache: DiskCache,
}

impl DynamicAssets {
    /// The baked-in path set.
    pub closed spec fn spec_paths(&self) -> Seq<Seq<char>> {
        self.paths.deep_view()
    }

    /// The cached contents, in promotion order.
    pub closed spec fn spec_cache(&self) -> Seq<Seq<u8>> {
        self.cache@
    }

    /// The cache never holds equal bytes twice.
    pub open spec fn wf(&self) -> bool {
        spec_cache_wf(self.spec_cache())
    }

    /// The dynamic runtime for a discovered file list, with an empty cache.
    pub fn new(files: FileList) -> (r: DynamicAssets)
        ensures
            r.spec_paths() == files@,
            r.spec_cache() =~= Seq::<Seq<u8>>::empty(),
            r.wf(),
    {
        DynamicAssets { paths: files.paths, cache: DiskCache::new() }
    }

    /// The path set computed by discovery, as a fresh list: re-invoking it
    /// yields a new, independent sequence over the same fixed paths.
    pub fn list(&self) -> (r: Vec<String>)
        ensures
            r.deep_view() == self.spec_paths(),
    {
        clone_strings(&self.paths)
    }

    /// What the dynamic `get` does with the outcome of the call-time read:
    /// a failed read is absent, never an error; the bytes of a successful
    /// read are promoted into the cache and handed back unchanged.
    pub fn get_from_read(&mut self, read: Option<Vec<u8>>) -> (r: Option<Vec<u8>>)
        requires
            old(self).wf(),
        ensures
            final(self).wf(),
            final(self).spec_paths() == old(self).spec_paths(),
            r is Some <==> read is Some,
            r matches Some(out) ==> read matches Some(bytes) && out@ == bytes@,
            read matches Some(bytes) ==> final(self).spec_cache() == spec_promote(
                old(self).spec_cache(),
                bytes@,
            ) && final(self).spec_cache()[spec_handle_of(old(self).spec_cache(), bytes@)]
                == bytes@,
            read is None ==> *final(self) == *old(self),
    {
        match read {
            Some(bytes) => {
                let handle = self.cache.promote(bytes);
                Some(self.cache.content(handle))
            },
            None => None,
        }
    }

    /// The text form of one dynamic lookup: present exactly when the read
    /// succeeded and its bytes are valid UTF-8, and then it is those bytes
    /// decoded; the cache is fed exactly as by `get_from_read`.
    pub fn get_str_from_read(&mut self, read: Option<Vec<u8>>) -> (r: Option<String>)
        requires
            old(self).wf(),
        ensures
            final(self).wf(),
            final(self).spec_paths() == old(self).spec_paths(),
            r is Some <==> spec_text_of(read.deep_view()) is Some,
            r matches Some(text) ==> spec_text_of(read.deep_view()) == Some(text@),
            read matches Some(bytes) ==> final(self).spec_cache() == spec_promote(
                old(self).spec_cache(),
                bytes@,
            ),
            read is None ==> *final(self) == *old(self),
    {
        match read {
            Some(bytes) => {
                proof {
                    assert(bytes.deep_view() =~= bytes@);
                    assert(read.deep_view() == Some(bytes@));
                }
                let handle = self.cache.promote(bytes);
                let stored = self.cache.content(handle);
                decode_text(&stored)
            },
            None => None,
        }
    }
}

} // verus!
