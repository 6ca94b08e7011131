//! Allocators and a reusable buffer pool keyed by size and alignment.
use crate::buffer::{Buffer, BufferDesc};
use crate::error::Error;
use crate::types::{DeviceKind, MemoryDomain};
use std::sync::Arc;
use vstd::prelude::*;
use vstd::rwlock::{RwLock, RwLockPredicate};

verus! {

/// Memory allocation interface used by devices and reusable pools.
pub trait Allocator {
    /// Whether every allocation with a non-zero alignment succeeds.
    spec fn allocation_never_fails(&self) -> bool;

    /// Whether every buffer this allocator hands out is host memory.
    spec fn allocates_host(&self) -> bool;

    /// Allocates a buffer of the given descriptor; a zero alignment is rejected.
    fn allocate(&self, desc: BufferDesc) -> (r: Result<Buffer, Error>)
        ensures
            desc.align == 0 ==> r matches Err(Error::InvalidArgument(_)),
            r matches Ok(b) ==> b@.desc == desc,
            self.allocation_never_fails() && desc.align != 0 ==> r is Ok,
            self.allocates_host() ==> (r matches Ok(b) ==> b@.domain == MemoryDomain::Host),
    ;

    /// Whether handing a buffer back to this allocator always succeeds.
    spec fn release_never_fails(&self) -> bool;

    /// Returns a buffer to the allocator.
    fn deallocate(&self, buffer: Buffer) -> (r: Result<(), Error>)
        ensures
            self.release_never_fails() ==> r is Ok,
    ;
}

/// CPU allocator backed by ordinary host memory.
#[derive(Debug, Default)]
pub struct CpuAllocator;

impl Allocator for CpuAllocator {
    /// Host memory is always at hand.
    open spec fn allocation_never_fails(&self) -> bool {
        true
    }

    open spec fn allocates_host(&self) -> bool {
        true
    }

    /// Host memory is simply released.
    open spec fn release_never_fails(&self) -> bool {
        true
    }

    fn allocate(&self, desc: BufferDesc) -> (r: Result<Buffer, Error>)
        ensures
            desc.align != 0 ==> (r matches Ok(b) && b@.desc == desc && b@.domain
                == MemoryDomain::Host && b@.device == DeviceKind::Cpu && !b@.external_only),
    {
        if desc.align == 0 {
            return Err(Error::InvalidArgument("buffer alignment must be non-zero".to_string()));
        }
        Ok(Buffer::new_host(DeviceKind::Cpu, desc))
    }

    fn deallocate(&self, _buffer: Buffer) -> (r: Result<(), Error>)
        ensures
            r is Ok,
    {
        Ok(())
    }
}

/// Cached buffers that share one descriptor.
pub struct PoolBucket {
    pub size_bytes: usize,
    pub align: usize,
    pub buffers: Vec<Buffer>,
}

/// The descriptor a bucket files its buffers under, as a key.
pub open spec fn bucket_key(b: PoolBucket) -> (usize, usize) {
    (b.size_bytes, b.align)
}

/// The key of a descriptor.
pub open spec fn desc_key(d: BufferDesc) -> (usize, usize) {
    (d.size_bytes, d.align)
}

/// Every cached buffer is a host buffer filed under its own descriptor.
pub open spec fn bucket_holds(bucket: PoolBucket) -> bool {
    &&& bucket.buffers@.len() > 0
    &&& forall|j: int|
        0 <= j < bucket.buffers@.len() ==> desc_key((#[trigger] bucket.buffers@[j])@.desc) == bucket_key(bucket)
            && bucket.buffers@[j]@.domain == MemoryDomain::Host
}

/// Buckets are well formed and no two share a key.
pub open spec fn buckets_wf(s: Seq<PoolBucket>) -> bool {
    &&& forall|i: int| 0 <= i < s.len() ==> bucket_holds(#[trigger] s[i])
    &&& forall|i: int, j: int| 0 <= i < j < s.len() ==> bucket_key(#[trigger] s[i]) != bucket_key(#[trigger] s[j])
}

/// How many buffers are cached under each key (keys with none are absent).
pub open spec fn counts_of(s: Seq<PoolBucket>) -> Map<(usize, usize), nat>
    decreases s.len(),
{
    if s.len() == 0 {
        Map::empty()
    } else {
        counts_of(s.drop_last()).insert(bucket_key(s.last()), s.last().buffers@.len())
    }
}

/// The counts after one buffer is cached under `k`.
pub open spec fn stored(m: Map<(usize, usize), nat>, k: (usize, usize)) -> Map<(usize, usize), nat> {
    m.insert(k, if m.contains_key(k) { m[k] + 1 } else { 1 })
}

/// The counts after one buffer is taken from under `k` (nothing changes when
/// none is cached there).
pub open spec fn taken(m: Map<(usize, usize), nat>, k: (usize, usize)) -> Map<(usize, usize), nat> {
    if !m.contains_key(k) {
        m
    } else if m[k] <= 1 {
        m.remove(k)
    } else {
        m.insert(k, (m[k] - 1) as nat)
    }
}

/// The number of cached buffers.
pub open spec fn total_of(s: Seq<PoolBucket>) -> int
    decreases s.len(),
{
    if s.len() == 0 {
        0
    } else {
        total_of(s.drop_last()) + s.last().buffers@.len()
    }
}

proof fn lemma_counts_domain(s: Seq<PoolBucket>, k: (usize, usize))
    requires
        buckets_wf(s),
    ensures
        counts_of(s).contains_key(k) <==> exists|i: int| 0 <= i < s.len() && bucket_key(#[trigger] s[i]) == k,
        forall|i: int| 0 <= i < s.len() && bucket_key(#[trigger] s[i]) == k ==> counts_of(s)[k] == s[i].buffers@.len(),
        counts_of(s).contains_key(k) ==> counts_of(s)[k] > 0,
    decreases s.len(),
{
    if s.len() > 0 {
        let t = s.drop_last();
        assert(buckets_wf(t)) by {
            assert forall|i: int| 0 <= i < t.len() implies bucket_holds(#[trigger] t[i]) by {
                assert(t[i] == s[i]);
            }
            assert forall|i: int, j: int| 0 <= i < j < t.len() implies bucket_key(#[trigger] t[i]) != bucket_key(#[trigger] t[j]) by {
                assert(t[i] == s[i] && t[j] == s[j]);
            }
        }
        lemma_counts_domain(t, k);
        assert(bucket_holds(s[s.len() - 1]));
        if exists|i: int| 0 <= i < t.len() && bucket_key(#[trigger] t[i]) == k {
            let i = choose|i: int| 0 <= i < t.len() && bucket_key(#[trigger] t[i]) == k;
            assert(s[i] == t[i]);
        }
        assert forall|i: int| 0 <= i < s.len() && bucket_key(#[trigger] s[i]) == k implies counts_of(s)[k] == s[i].buffers@.len() by {
            if i < s.len() - 1 {
                assert(t[i] == s[i]);
                assert(bucket_key(s[i]) != bucket_key(s[s.len() - 1]));
            }
        }
        if exists|i: int| 0 <= i < s.len() && bucket_key(#[trigger] s[i]) == k {
            let i = choose|i: int| 0 <= i < s.len() && bucket_key(#[trigger] s[i]) == k;
            if i < s.len() - 1 {
                assert(t[i] == s[i]);
            }
        }
    }
}

proof fn lemma_wf_remove(s: Seq<PoolBucket>, i: int)
    requires
        buckets_wf(s),
        0 <= i < s.len(),
    ensures
        buckets_wf(s.remove(i)),
        forall|a: int| 0 <= a < s.remove(i).len() ==> bucket_key(#[trigger] s.remove(i)[a]) != bucket_key(s[i]),
{
    let r = s.remove(i);
    assert forall|a: int| 0 <= a < r.len() implies bucket_holds(#[trigger] r[a]) by {
        let a0 = if a < i { a } else { a + 1 };
        assert(r[a] == s[a0]);
    }
    assert forall|a: int, b: int| 0 <= a < b < r.len() implies bucket_key(#[trigger] r[a]) != bucket_key(#[trigger] r[b]) by {
        let a0 = if a < i { a } else { a + 1 };
        let b0 = if b < i { b } else { b + 1 };
        assert(r[a] == s[a0] && r[b] == s[b0]);
    }
    assert forall|a: int| 0 <= a < r.len() implies bucket_key(#[trigger] r[a]) != bucket_key(s[i]) by {
        let a0 = if a < i { a } else { a + 1 };
        assert(r[a] == s[a0]);
    }
}

proof fn lemma_counts_remove(s: Seq<PoolBucket>, i: int)
    requires
        buckets_wf(s),
        0 <= i < s.len(),
    ensures
        counts_of(s.remove(i)) == counts_of(s).remove(bucket_key(s[i])),
    decreases s.len(),
{
    let t = s.drop_last();
    let last = s.last();
    lemma_wf_remove(s, s.len() - 1);
    assert(s.remove(s.len() - 1) =~= t);
    lemma_counts_domain(t, bucket_key(last));
    if i == s.len() - 1 {
        assert(counts_of(s).remove(bucket_key(s[i])) =~= counts_of(t));
    } else {
        lemma_counts_remove(t, i);
        assert(s.remove(i).drop_last() =~= t.remove(i));
        assert(s.remove(i).last() == last);
        assert(t[i] == s[i]);
        assert(bucket_key(s[i]) != bucket_key(last));
        assert(counts_of(s.remove(i)) =~= counts_of(s).remove(bucket_key(s[i])));
    }
}

proof fn lemma_wf_push(s: Seq<PoolBucket>, b: PoolBucket)
    requires
        buckets_wf(s),
        bucket_holds(b),
        forall|a: int| 0 <= a < s.len() ==> bucket_key(#[trigger] s[a]) != bucket_key(b),
    ensures
        buckets_wf(s.push(b)),
        counts_of(s.push(b)) == counts_of(s).insert(bucket_key(b), b.buffers@.len()),
{
    let u = s.push(b);
    assert(u.drop_last() =~= s);
    assert forall|a: int| 0 <= a < u.len() implies bucket_holds(#[trigger] u[a]) by {
        if a < s.len() {
            assert(u[a] == s[a]);
        }
    }
    assert forall|a: int, c: int| 0 <= a < c < u.len() implies bucket_key(#[trigger] u[a]) != bucket_key(#[trigger] u[c]) by {
        assert(u[a] == s[a]);
        if c < s.len() {
            assert(u[c] == s[c]);
        }
    }
}

/// Buffers kept for reuse, filed by descriptor.
pub struct BufferCache {
    buckets: Vec<PoolBucket>,
}

impl BufferCache {
    pub closed spec fn wf(&self) -> bool {
        buckets_wf(self.buckets@)
    }

    /// How many buffers are cached under each `(size_bytes, align)` key.
    pub closed spec fn counts(&self) -> Map<(usize, usize), nat> {
        counts_of(self.buckets@)
    }

    /// Every key present in the counts has at least one buffer.
    pub proof fn lemma_counts_positive(&self)
        requires
            self.wf(),
        ensures
            forall|key: (usize, usize)| #[trigger] self.counts().contains_key(key) ==> self.counts()[key] > 0,
    {
        assert forall|key: (usize, usize)| #[trigger] self.counts().contains_key(key) implies self.counts()[key] > 0 by {
            lemma_counts_domain(self.buckets@, key);
        }
    }

    /// The number of cached buffers.
    pub closed spec fn total(&self) -> int {
        total_of(self.buckets@)
    }

    pub fn new() -> (r: Self)
        ensures
            r.wf(),
            r.counts() == Map::<(usize, usize), nat>::empty(),
            r.total() == 0,
    {
        BufferCache { buckets: Vec::new() }
    }

    fn find(&self, key: (usize, usize)) -> (r: Option<usize>)
        requires
            self.wf(),
        ensures
            r matches Some(i) ==> i < self.buckets@.len() && bucket_key(self.buckets@[i as int]) == key,
            r is None ==> forall|i: int| 0 <= i < self.buckets@.len() ==> bucket_key(#[trigger] self.buckets@[i]) != key,
    {
        let mut i: usize = 0;
        while i < self.buckets.len()
            invariant
                i <= self.buckets@.len(),
                forall|k: int| 0 <= k < i ==> bucket_key(#[trigger] self.buckets@[k]) != key,
            decreases self.buckets@.len() - i,
        {
            if self.buckets[i].size_bytes == key.0 && self.buckets[i].align == key.1 {
                return Some(i);
            }
            i += 1;
        }
        None
    }

    /// Takes a buffer cached under `desc`, if there is one.
    pub fn take(&mut self, desc: BufferDesc) -> (r: Option<Buffer>)
        requires
            old(self).wf(),
        ensures
            final(self).wf(),
            final(self).counts() == taken(old(self).counts(), desc_key(desc)),
            old(self).counts().contains_key(desc_key(desc)) ==> (r matches Some(b) && b@.desc == desc
                && b@.domain == MemoryDomain::Host),
            !old(self).counts().contains_key(desc_key(desc)) ==> r is None,
    {
        let ghost s = self.buckets@;
        let ghost m = counts_of(s);
        let ghost k = desc_key(desc);
        proof {
            lemma_counts_domain(s, k);
        }
        match self.find((desc.size_bytes, desc.align)) {
            None => None,
            Some(i) => {
                let mut bucket = self.buckets.remove(i);
                assert(bucket == s[i as int]);
                assert(bucket_holds(bucket));
                let ghost before = bucket.buffers@;
                let popped = bucket.buffers.pop();
                proof {
                    lemma_wf_remove(s, i as int);
                    lemma_counts_remove(s, i as int);
                    assert(m[k] == before.len());
                    assert(before[before.len() - 1] == popped->0);
                }
                if bucket.buffers.len() > 0 {
                    proof {
                        assert forall|j: int| 0 <= j < bucket.buffers@.len() implies desc_key((#[trigger] bucket.buffers@[j])@.desc) == bucket_key(bucket) && bucket.buffers@[j]@.domain == MemoryDomain::Host by {
                            assert(bucket.buffers@[j] == before[j]);
                        }
                        lemma_wf_push(s.remove(i as int), bucket);
                        assert(m.remove(k).insert(k, bucket.buffers@.len()) =~= taken(m, k));
                    }
                    self.buckets.push(bucket);
                } else {
                    assert(m.remove(k) =~= taken(m, k));
                }
                popped
            },
        }
    }

    /// Caches a host buffer under its own descriptor.
    pub fn store(&mut self, buffer: Buffer)
        requires
            old(self).wf(),
            buffer@.domain == MemoryDomain::Host,
        ensures
            final(self).wf(),
            final(self).counts() == stored(old(self).counts(), desc_key(buffer@.desc)),
    {
        let ghost s = self.buckets@;
        let ghost m = counts_of(s);
        let ghost k = desc_key(buffer@.desc);
        let desc = buffer.desc();
        proof {
            lemma_counts_domain(s, k);
        }
        match self.find((desc.size_bytes, desc.align)) {
            Some(i) => {
                let mut bucket = self.buckets.remove(i);
                assert(bucket == s[i as int]);
                let ghost before = bucket.buffers@;
                bucket.buffers.push(buffer);
                proof {
                    lemma_wf_remove(s, i as int);
                    lemma_counts_remove(s, i as int);
                    assert(m[k] == before.len());
                    assert(bucket_holds(s[i as int]));
                    assert forall|j: int| 0 <= j < bucket.buffers@.len() implies desc_key((#[trigger] bucket.buffers@[j])@.desc) == bucket_key(bucket) && bucket.buffers@[j]@.domain == MemoryDomain::Host by {
                        if j < before.len() {
                            assert(bucket.buffers@[j] == before[j]);
                        }
                    }
                    lemma_wf_push(s.remove(i as int), bucket);
                    assert(m.remove(k).insert(k, bucket.buffers@.len()) =~= stored(m, k));
                }
                self.buckets.push(bucket);
            },
            None => {
                let mut cached: Vec<Buffer> = Vec::new();
                cached.push(buffer);
                let bucket = PoolBucket { size_bytes: desc.size_bytes, align: desc.align, buffers: cached };
                proof {
                    assert(bucket.buffers@ =~= seq![buffer]);
                    assert(bucket_holds(bucket));
                    lemma_wf_push(s, bucket);
                    assert(m.insert(k, 1) =~= stored(m, k));
                }
                self.buckets.push(bucket);
            },
        }
    }

    /// The number of cached buffers, saturated at `usize::MAX`.
    pub fn len(&self) -> (r: usize)
        ensures
            r == (if self.total() <= usize::MAX { self.total() } else { usize::MAX as int }),
    {
        let mut total: usize = 0;
        let mut i: usize = 0;
        let ghost s = self.buckets@;
        assert(s.take(0) =~= Seq::<PoolBucket>::empty());
        proof {
            lemma_total_nonneg(s);
        }
        while i < self.buckets.len()
            invariant
                s == self.buckets@,
                i <= s.len(),
                total == (if total_of(s.take(i as int)) <= usize::MAX { total_of(s.take(i as int)) } else { usize::MAX as int }),
                forall|a: int| 0 <= a <= s.len() ==> #[trigger] total_of(s.take(a)) >= 0,
            decreases s.len() - i,
        {
            proof {
                assert(s.take(i + 1).drop_last() =~= s.take(i as int));
            }
            total = total.saturating_add(self.buckets[i].buffers.len());
            i += 1;
        }
        assert(s.take(s.len() as int) =~= s);
        total
    }
}

proof fn lemma_total_nonneg(s: Seq<PoolBucket>)
    ensures
        forall|a: int| 0 <= a <= s.len() ==> #[trigger] total_of(s.take(a)) >= 0,
{
    assert forall|a: int| 0 <= a <= s.len() implies #[trigger] total_of(s.take(a)) >= 0 by {
        lemma_total_prefix_nonneg(s.take(a));
    }
}

proof fn lemma_total_prefix_nonneg(s: Seq<PoolBucket>)
    ensures
        total_of(s) >= 0,
    decreases s.len(),
{
    if s.len() > 0 {
        lemma_total_prefix_nonneg(s.drop_last());
    }
}

/// Caching a buffer and then taking one under the same descriptor leaves the
/// cache counts as they were.
pub proof fn lemma_store_then_take(m: Map<(usize, usize), nat>, k: (usize, usize))
    requires
        forall|key: (usize, usize)| #[trigger] m.contains_key(key) ==> m[key] > 0,
    ensures
        taken(stored(m, k), k) == m,
{
    let st = stored(m, k);
    if m.contains_key(k) {
        assert(st[k] == m[k] + 1);
        assert(taken(st, k) =~= m);
    } else {
        assert(st[k] == 1);
        assert(taken(st, k) == st.remove(k));
        assert(st.remove(k) =~= m);
    }
}

/// Caching a buffer under one descriptor never changes what is cached under
/// another.
pub proof fn lemma_store_is_local(m: Map<(usize, usize), nat>, k: (usize, usize), other: (usize, usize))
    requires
        other != k,
    ensures
        stored(m, k).contains_key(other) == m.contains_key(other),
        m.contains_key(other) ==> stored(m, k)[other] == m[other],
        stored(m, k).contains_key(k),
{
}

/// Lock invariant of the pool cache.
pub struct PoolCache;

impl RwLockPredicate<BufferCache> for PoolCache {
    open spec fn inv(self, v: BufferCache) -> bool {
        v.wf()
    }
}

/// Reusable allocation pool keyed by buffer size and alignment.
pub struct MemoryPool<A: Allocator> {
    allocator: Arc<A>,
    buffers: RwLock<BufferCache, PoolCache>,
}

impl<A: Allocator> MemoryPool<A> {
    /// The allocator the pool draws fresh buffers from and hands back the
    /// buffers it does not cache.
    pub closed spec fn base(&self) -> Arc<A> {
        self.allocator
    }

    /// A pool over `allocator`, with no buffer cached yet.
    pub fn new(allocator: Arc<A>) -> (r: Self)
        ensures
            r.base() == allocator,
    {
        MemoryPool { allocator, buffers: RwLock::new(BufferCache::new(), Ghost(PoolCache)) }
    }

    /// Number of buffers currently cached for reuse.
    pub fn cached_buffer_count(&self) -> (r: usize) {
        let handle = self.buffers.acquire_read();
        let count = handle.borrow().len();
        handle.release_read();
        count
    }

    /// Takes a cached buffer filed under `desc`, dropping the bucket once empty.
    fn take_cached(&self, desc: BufferDesc) -> (r: Option<Buffer>)
        ensures
            r matches Some(b) ==> b@.desc == desc && b@.domain == MemoryDomain::Host,
    {
        let (mut cache, handle) = self.buffers.acquire_write();
        let taken = cache.take(desc);
        handle.release_write(cache);
        taken
    }
}

impl<A: Allocator> Allocator for MemoryPool<A> {
    /// Releasing through the pool fails only where its allocator's release
    /// does: caching a buffer always succeeds.
    closed spec fn release_never_fails(&self) -> bool {
        (*self.allocator).release_never_fails()
    }

    /// A pool succeeds wherever its allocator does: a cached buffer is
    /// handed out without asking the allocator.
    closed spec fn allocation_never_fails(&self) -> bool {
        (*self.allocator).allocation_never_fails()
    }

    /// The pool caches host buffers only.
    closed spec fn allocates_host(&self) -> bool {
        (*self.allocator).allocates_host()
    }

    /// Hands out a cached buffer of the descriptor if there is one, and
    /// otherwise a fresh one from the allocator.
    fn allocate(&self, desc: BufferDesc) -> (r: Result<Buffer, Error>)
        ensures
            (*self.base()).allocation_never_fails() && desc.align != 0 ==> r is Ok,
            (*self.base()).allocates_host() ==> (r matches Ok(b) ==> b@.domain == MemoryDomain::Host),
    {
        if desc.align == 0 {
            return Err(Error::InvalidArgument("buffer alignment must be non-zero".to_string()));
        }
        match self.take_cached(desc) {
            Some(buffer) => Ok(buffer),
            None => self.allocator.allocate(desc),
        }
    }

    /// Caches a host buffer that no other handle shares; hands any other
    /// buffer back to the underlying allocator.
    fn deallocate(&self, buffer: Buffer) -> (r: Result<(), Error>)
        ensures
            (*self.base()).release_never_fails() ==> r is Ok,
    {
        if buffer.domain() != MemoryDomain::Host || buffer.ref_count() != 1 {
            return self.allocator.deallocate(buffer);
        }
        let (mut cache, handle) = self.buffers.acquire_write();
        cache.store(buffer);
        handle.release_write(cache);
        Ok(())
    }
}

/// A pool over host memory never fails to take a buffer back, never fails
/// to hand one out, and hands out host memory only.
pub proof fn lemma_cpu_pool_release(pool: &MemoryPool<CpuAllocator>)
    ensures
        pool.release_never_fails(),
        pool.allocation_never_fails(),
        pool.allocates_host(),
{
}

} // verus!
