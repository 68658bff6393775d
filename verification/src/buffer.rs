use vstd::prelude::*;
use vstd::arithmetic::div_mod::{
    lemma_add_mod_noop_right, lemma_fundamental_div_mod, lemma_mod_add_multiples_vanish,
    lemma_mod_bound, lemma_mod_multiples_vanish, lemma_small_mod, lemma_sub_mod_noop,
};
use std::collections::HashMap;
use crate::config::PAGE_SIZE;
use crate::disk::{copy_bytes, zero_page, zero_page_seq, DiskManager, PageId, INVALID_PAGE_ID};

verus! {

broadcast use vstd::std_specs::hash::group_hash_axioms;

/// The two failure kinds of the pool: an I/O failure propagated from the
/// disk manager, and resource exhaustion when every frame is pinned.
#[derive(Debug, Clone, Copy, PartialEq, Eq, Structural)]
pub enum Error {
    Io,
    NoFreeBuffer,
}

/// Cached copy of one page: the id it represents, its mutable bytes, and a
/// dirty flag recording whether the bytes differ from the on-disk copy.
pub struct Buffer {
    pub page_id: PageId,
    pub page: Vec<u8>,
    pub is_dirty: bool,
}

impl Buffer {
    pub open spec fn wf(self, page_size: usize) -> bool {
        self.page@.len() == page_size
    }

    /// A clean buffer of all-zero bytes, stamped with the reserved sentinel:
    /// it holds no page yet.
    pub fn new(page_size: usize) -> (r: Buffer)
        ensures
            r.page_id.0 == INVALID_PAGE_ID,
            r.page@ == zero_page_seq(page_size),
            !r.is_dirty,
            r.wf(page_size),
    {
        Buffer { page_id: PageId(INVALID_PAGE_ID), page: zero_page(page_size), is_dirty: false }
    }
}

impl Default for Buffer {
    /// A clean all-zero buffer of the default page size, carrying the wire
    /// default page id 0.
    fn default() -> (r: Buffer)
        ensures
            r.page_id.0 == 0,
            r.page@ == zero_page_seq(PAGE_SIZE),
            !r.is_dirty,
            r.wf(PAGE_SIZE),
    {
        Buffer { page_id: PageId(0), page: zero_page(PAGE_SIZE), is_dirty: false }
    }
}

/// One pool slot: a use-count (recency signal for eviction), an explicit
/// pin count (live handles held by callers), and the cached buffer.
pub struct Frame {
    pub usage_count: u64,
    pub pin_count: u64,
    pub buffer: Buffer,
}

impl Frame {
    /// A pinned frame always has a positive use-count: every handle hand-out
    /// bumps both counters, and the use-count only decays while unpinned.
    pub open spec fn wf(self, page_size: usize) -> bool {
        &&& self.buffer.wf(page_size)
        &&& self.pin_count <= self.usage_count
    }
}

/// Index of a frame inside the pool.
#[derive(Debug, Clone, Copy, PartialEq, Eq, PartialOrd, Ord, Structural)]
pub struct BufferId(pub usize);

/// Sum of all use-counts; the decay of the clock sweep drives it down.
pub open spec fn total_usage(frames: Seq<Frame>) -> nat
    decreases frames.len(),
{
    if frames.len() == 0 {
        0nat
    } else {
        total_usage(frames.drop_last()) + frames.last().usage_count as nat
    }
}

proof fn lemma_total_usage_decreases(frames: Seq<Frame>, i: int, f2: Frame)
    requires
        0 <= i < frames.len(),
        f2.usage_count < frames[i].usage_count,
    ensures
        total_usage(frames.update(i, f2)) < total_usage(frames),
    decreases frames.len(),
{
    let u = frames.update(i, f2);
    if i == frames.len() - 1 {
        assert(u.drop_last() =~= frames.drop_last());
    } else {
        assert(u.drop_last() =~= frames.drop_last().update(i, f2));
        lemma_total_usage_decreases(frames.drop_last(), i, f2);
    }
}

/// The `k`-th position of the clock window of length `s` that ends just
/// before the hand position `cur`, in a pool of `n` frames.
spec fn clock_pos(cur: int, s: int, k: int, n: int) -> int {
    (cur - s + k) % n
}

/// Forward distance from the sweep's start position `c0` to frame `w` on
/// the ring of `n` frames.
spec fn ring_dist(c0: int, w: int, n: int) -> int {
    (w - c0) % n
}

/// How often the sweep has examined frame `w` after `lap` complete laps
/// plus `stepr` further steps from its start position `c0`.
spec fn sweep_visits(c0: int, w: int, n: int, lap: int, stepr: int) -> int {
    lap + if ring_dist(c0, w, n) < stepr {
        1int
    } else {
        0int
    }
}

/// Fixed array of frames with a rotating clock hand for victim selection.
pub struct BufferPool {
    pub buffers: Vec<Frame>,
    pub next_victim_id: BufferId,
    pub page_size: usize,
}

impl BufferPool {
    pub open spec fn wf(self) -> bool {
        &&& 0 < self.buffers@.len()
        &&& self.next_victim_id.0 < self.buffers@.len()
        &&& self.page_size > 0
        &&& forall|i: int|
            0 <= i < self.buffers@.len() ==> (#[trigger] self.buffers@[i]).wf(self.page_size)
    }

    /// Every frame is pinned: no victim can exist.
    pub open spec fn all_pinned(self) -> bool {
        forall|i: int|
            0 <= i < self.buffers@.len() ==> (#[trigger] self.buffers@[i]).pin_count > 0
    }

    /// A pool of `pool_size` fresh frames: clean, unpinned, holding no page.
    pub fn new(pool_size: usize, page_size: usize) -> (r: BufferPool)
        requires
            pool_size > 0,
            page_size > 0,
        ensures
            r.wf(),
            r.buffers@.len() == pool_size,
            r.page_size == page_size,
            r.next_victim_id.0 == 0,
            forall|i: int|
                0 <= i < pool_size ==> {
                    let f = #[trigger] r.buffers@[i];
                    &&& f.usage_count == 0
                    &&& f.pin_count == 0
                    &&& f.buffer.page_id.0 == INVALID_PAGE_ID
                    &&& !f.buffer.is_dirty
                    &&& f.buffer.page@ == zero_page_seq(page_size)
                },
    {
        let mut buffers: Vec<Frame> = Vec::new();
        while buffers.len() < pool_size
            invariant
                buffers@.len() <= pool_size,
                forall|i: int|
                    0 <= i < buffers@.len() ==> {
                        let f = #[trigger] buffers@[i];
                        &&& f.usage_count == 0
                        &&& f.pin_count == 0
                        &&& f.buffer.page_id.0 == INVALID_PAGE_ID
                        &&& !f.buffer.is_dirty
                        &&& f.buffer.page@ == zero_page_seq(page_size)
                    },
            decreases pool_size - buffers@.len(),
        {
            let frame = Frame { usage_count: 0, pin_count: 0, buffer: Buffer::new(page_size) };
            buffers.push(frame);
        }
        BufferPool { buffers, next_victim_id: BufferId(0), page_size }
    }

    /// Number of frames in the pool.
    pub fn size(&self) -> (r: u64)
        ensures
            r == self.buffers@.len(),
    {
        self.buffers.len() as u64
    }

    /// Advances the clock hand circularly, wrapping modulo the pool size.
    pub fn increment_id(&self, buffer_id: BufferId) -> (r: BufferId)
        requires
            self.wf(),
            buffer_id.0 < self.buffers@.len(),
        ensures
            r.0 == (buffer_id.0 + 1) % (self.buffers@.len() as int),
            r.0 < self.buffers@.len(),
    {
        let n = self.buffers.len();
        BufferId((buffer_id.0 + 1) % n)
    }

    /// Clock-sweep victim selection. Walks the frames from the clock hand:
    /// a frame with use-count zero is the victim; an unpinned frame decays
    /// its use-count by one (its second chance); a pinned frame is skipped,
    /// and a full lap of nothing but pinned frames proves exhaustion.
    ///
    /// Returns `None` exactly when every frame is pinned, and then changes
    /// no frame; otherwise the victim is unpinned with a fully decayed
    /// use-count and the hand rests on it. Nothing but use-counts and the
    /// hand is ever modified.
    pub fn evict(&mut self) -> (r: Option<BufferId>)
        requires
            old(self).wf(),
        ensures
            final(self).wf(),
            final(self).buffers@.len() == old(self).buffers@.len(),
            final(self).page_size == old(self).page_size,
            forall|i: int|
                0 <= i < final(self).buffers@.len() ==> {
                    let f0 = old(self).buffers@[i];
                    let f1 = #[trigger] final(self).buffers@[i];
                    &&& f1.buffer == f0.buffer
                    &&& f1.pin_count == f0.pin_count
                    &&& f1.usage_count <= f0.usage_count
                },
            r is None <==> old(self).all_pinned(),
            r is None ==> final(self).buffers@ == old(self).buffers@,
            match r {
                Some(id) => {
                    &&& id.0 < final(self).buffers@.len()
                    &&& final(self).buffers@[id.0 as int].usage_count == 0
                    &&& final(self).buffers@[id.0 as int].pin_count == 0
                    &&& final(self).next_victim_id == id
                    &&& forall|w: int|
                        0 <= w < old(self).buffers@.len() && (#[trigger] old(
                            self,
                        ).buffers@[w]).pin_count == 0 ==> old(self).buffers@[
                            id.0 as int].usage_count <= old(self).buffers@[w].usage_count
                },
                None => true,
            },
    {
        let pool_size = self.size();
        let ghost n = self.buffers@.len() as int;
        let ghost c0 = self.next_victim_id.0 as int;
        let ghost mut lap: int = 0;
        let ghost mut stepr: int = 0;
        proof {
            lemma_small_mod(c0 as nat, n as nat);
        }
        let mut consecutive_pinned: u64 = 0;
        loop
            invariant
                self.wf(),
                0 <= c0 < n,
                0 <= stepr < n,
                0 <= lap,
                self.next_victim_id.0 as int == (c0 + stepr) % n,
                forall|w: int|
                    0 <= w < n && (#[trigger] self.buffers@[w]).pin_count == 0
                        ==> self.buffers@[w].usage_count + sweep_visits(c0, w, n, lap, stepr)
                        == old(self).buffers@[w].usage_count,
                n == self.buffers@.len(),
                pool_size == n,
                consecutive_pinned < pool_size,
                self.page_size == old(self).page_size,
                self.buffers@.len() == old(self).buffers@.len(),
                self.next_victim_id.0 < self.buffers@.len(),
                forall|i: int|
                    0 <= i < n ==> {
                        let f0 = old(self).buffers@[i];
                        let f1 = #[trigger] self.buffers@[i];
                        &&& f1.buffer == f0.buffer
                        &&& f1.pin_count == f0.pin_count
                        &&& f1.usage_count <= f0.usage_count
                    },
                forall|i: int|
                    0 <= i < n && (#[trigger] self.buffers@[i]).usage_count
                        < old(self).buffers@[i].usage_count ==> self.buffers@[i].pin_count == 0,
                forall|k: int|
                    0 <= k < consecutive_pinned ==> self.buffers@[#[trigger] clock_pos(
                        self.next_victim_id.0 as int,
                        consecutive_pinned as int,
                        k,
                        n,
                    )].pin_count > 0,
            decreases total_usage(self.buffers@), pool_size - consecutive_pinned,
        {
            let next_victim_id = self.next_victim_id;
            let idx = next_victim_id.0;
            if self.buffers[idx].usage_count == 0 {
                proof {
                    assert(self.buffers@[idx as int].wf(self.page_size));
                    assert(old(self).buffers@[idx as int].pin_count == self.buffers@[
                        idx as int].pin_count);
                    assert(!old(self).all_pinned()) by {
                        assert(old(self).buffers@[idx as int].pin_count == 0);
                    }
                    // The victim sits at distance `stepr` from the sweep's
                    // start, so it has been examined exactly `lap` times and
                    // entered with use-count `lap`; every unpinned frame has
                    // been examined at least `lap` times, so none entered
                    // with a smaller use-count.
                    let cur = idx as int;
                    lemma_sub_mod_noop(c0 + stepr, c0, n);
                    lemma_small_mod(stepr as nat, n as nat);
                    lemma_small_mod(c0 as nat, n as nat);
                    assert(ring_dist(c0, cur, n) == stepr);
                    assert(sweep_visits(c0, cur, n, lap, stepr) == lap);
                    assert(old(self).buffers@[cur].usage_count == lap);
                    assert forall|w: int|
                        0 <= w < n && (#[trigger] old(self).buffers@[w]).pin_count == 0 implies old(
                        self).buffers@[cur].usage_count <= old(self).buffers@[w].usage_count by {
                        assert(self.buffers@[w].pin_count == 0);
                        assert(self.buffers@[w].usage_count + sweep_visits(c0, w, n, lap, stepr)
                            == old(self).buffers@[w].usage_count);
                        assert(sweep_visits(c0, w, n, lap, stepr) >= lap);
                    }
                }
                return Some(next_victim_id);
            }
            if self.buffers[idx].pin_count == 0 {
                proof {
                    assert(!old(self).all_pinned()) by {
                        assert(old(self).buffers@[idx as int].pin_count == 0);
                    }
                }
                let ghost bufs0 = self.buffers@;
                let u = self.buffers[idx].usage_count;
                self.buffers[idx].usage_count = u - 1;
                consecutive_pinned = 0;
                proof {
                    lemma_total_usage_decreases(bufs0, idx as int, self.buffers@[idx as int]);
                }
            } else {
                consecutive_pinned = consecutive_pinned + 1;
                if consecutive_pinned >= pool_size {
                    proof {
                        let s = consecutive_pinned as int - 1;
                        let cur = idx as int;
                        assert(s == n - 1);
                        assert forall|i: int| 0 <= i < n implies (
                        #[trigger] self.buffers@[i]).pin_count > 0 by {
                            if i != cur {
                                let d: int = if i < cur {
                                    cur - i
                                } else {
                                    cur - i + n
                                };
                                assert(0 < d < n);
                                if i < cur {
                                    lemma_small_mod((cur - i) as nat, n as nat);
                                    assert((cur - d) % n == i) by {
                                        lemma_small_mod(i as nat, n as nat);
                                    }
                                } else {
                                    lemma_mod_add_multiples_vanish(cur - i, n);
                                    lemma_small_mod((cur - i + n) as nat, n as nat);
                                    assert((cur - d) % n == i) by {
                                        lemma_mod_add_multiples_vanish(i - n, n);
                                        lemma_small_mod(i as nat, n as nat);
                                    }
                                }
                                let k = s - d;
                                assert(0 <= k < s);
                                assert(clock_pos(cur, s, k, n) == (cur - d) % n);
                                assert(clock_pos(cur, s, k, n) == i);
                                assert(self.buffers@[clock_pos(cur, s, k, n)].pin_count > 0);
                            }
                        }
                        assert forall|i: int| 0 <= i < n implies (#[trigger] old(
                        self).buffers@[i]).pin_count > 0 by {
                            assert(self.buffers@[i].pin_count > 0);
                        }
                        assert(old(self).all_pinned());
                        assert forall|i: int|
                            0 <= i < n implies #[trigger] self.buffers@[i] == old(
                        self).buffers@[i] by {
                            assert(self.buffers@[i].pin_count > 0);
                            assert(self.buffers@[i].usage_count == old(self).buffers@[
                                i].usage_count);
                        }
                        assert(self.buffers@ =~= old(self).buffers@);
                    }
                    return None;
                }
            }
            let ghost cur0 = self.next_victim_id.0 as int;
            let ghost s0 = consecutive_pinned as int;
            self.next_victim_id = self.increment_id(next_victim_id);
            proof {
                let old_lap = lap;
                let old_r = stepr;
                if stepr == n - 1 {
                    lap = lap + 1;
                    stepr = 0;
                } else {
                    stepr = stepr + 1;
                }
                // the hand advanced one step along the ring
                lemma_add_mod_noop_right(1, c0 + old_r, n);
                if old_r == n - 1 {
                    lemma_mod_add_multiples_vanish(c0, n);
                }
                lemma_small_mod(c0 as nat, n as nat);
                assert(self.next_victim_id.0 as int == (c0 + stepr) % n);
                // the examined position is the unique frame at distance
                // `old_r` from the start
                lemma_sub_mod_noop(c0 + old_r, c0, n);
                lemma_small_mod(old_r as nat, n as nat);
                assert(ring_dist(c0, cur0, n) == old_r);
                assert forall|w: int| 0 <= w < n && w != cur0 implies ring_dist(c0, w, n)
                    != old_r by {
                    if ring_dist(c0, w, n) == old_r {
                        lemma_fundamental_div_mod(w - c0, n);
                        let q = (w - c0) / n;
                        assert(w == c0 + old_r + n * q);
                        lemma_mod_multiples_vanish(q, c0 + old_r, n);
                        lemma_small_mod(w as nat, n as nat);
                        assert(w == cur0);
                    }
                }
                // visit counts stay in step with the decays
                assert forall|w: int|
                    0 <= w < n && (#[trigger] self.buffers@[w]).pin_count == 0 implies self.buffers@[
                    w].usage_count + sweep_visits(c0, w, n, lap, stepr) == old(self).buffers@[
                    w].usage_count by {
                    lemma_mod_bound(w - c0, n);
                    if w == cur0 {
                        assert(s0 == 0);
                        assert(sweep_visits(c0, w, n, lap, stepr) == old_lap + 1);
                        assert(sweep_visits(c0, w, n, old_lap, old_r) == old_lap);
                    } else {
                        assert(ring_dist(c0, w, n) != old_r);
                        assert(sweep_visits(c0, w, n, lap, stepr) == sweep_visits(
                            c0,
                            w,
                            n,
                            old_lap,
                            old_r,
                        ));
                    }
                }
                if s0 > 0 {
                    let cur1 = self.next_victim_id.0 as int;
                    assert forall|k: int| 0 <= k < s0 implies self.buffers@[#[trigger] clock_pos(
                        cur1,
                        s0,
                        k,
                        n,
                    )].pin_count > 0 by {
                        lemma_add_mod_noop_right(-s0 + k, cur0 + 1, n);
                        lemma_mod_bound(cur0 + 1, n);
                        lemma_small_mod(cur1 as nat, n as nat);
                        assert(clock_pos(cur1, s0, k, n) == (cur0 + 1 - s0 + k) % n);
                        if k < s0 - 1 {
                            assert(self.buffers@[clock_pos(cur0, s0 - 1, k, n)].pin_count > 0);
                            assert(clock_pos(cur0, s0 - 1, k, n) == (cur0 + 1 - s0 + k) % n);
                        } else {
                            lemma_small_mod(cur0 as nat, n as nat);
                            assert((cur0 + 1 - s0 + k) % n == cur0);
                            assert(self.buffers@[cur0].pin_count > 0);
                        }
                    }
                }
            }
        }
    }
}

/// All frames except `except` are exactly the same.
pub open spec fn frames_same_except(pre: Seq<Frame>, post: Seq<Frame>, except: int) -> bool {
    &&& post.len() == pre.len()
    &&& forall|j: int| 0 <= j < pre.len() && j != except ==> pre[j] == #[trigger] post[j]
}

/// All frames except `except` keep their buffer and pin count; their
/// use-counts may only have decayed (the clock sweep walked past them).
pub open spec fn frames_decayed_except(pre: Seq<Frame>, post: Seq<Frame>, except: int) -> bool {
    &&& post.len() == pre.len()
    &&& forall|j: int|
        0 <= j < pre.len() && j != except ==> {
            let f0 = pre[j];
            let f1 = #[trigger] post[j];
            &&& f1.buffer == f0.buffer
            &&& f1.pin_count == f0.pin_count
            &&& f1.usage_count <= f0.usage_count
        }
}

/// Orchestrates the page table, the pool and the disk manager: cached,
/// pinned access to pages with clock-sweep eviction and write-back.
pub struct BufferPoolManager {
    pub disk: DiskManager,
    pub pool: BufferPool,
    pub page_table: HashMap<u64, usize>,
}

impl BufferPoolManager {
    /// The page table maps exactly the resident pages, each to the frame
    /// that carries its bytes; stamped frames are registered in the table;
    /// frames stamped with the sentinel are empty: clean and unpinned.
    pub open spec fn wf(self) -> bool {
        &&& self.disk.wf()
        &&& self.pool.wf()
        &&& self.disk.page_size == self.pool.page_size
        &&& forall|p: u64|
            #[trigger] self.page_table@.contains_key(p) ==> {
                &&& self.page_table@[p] < self.pool.buffers@.len()
                &&& self.pool.buffers@[self.page_table@[p] as int].buffer.page_id.0 == p
                &&& p < self.disk.next_page_id
            }
        &&& forall|i: int|
            0 <= i < self.pool.buffers@.len() ==> {
                let f = #[trigger] self.pool.buffers@[i];
                f.buffer.page_id.0 != INVALID_PAGE_ID ==> self.page_table@.contains_key(
                    f.buffer.page_id.0,
                ) && self.page_table@[f.buffer.page_id.0] == i
            }
        &&& forall|i: int|
            0 <= i < self.pool.buffers@.len() ==> {
                let f = #[trigger] self.pool.buffers@[i];
                f.buffer.page_id.0 == INVALID_PAGE_ID ==> !f.buffer.is_dirty && f.pin_count == 0
            }
    }

    /// Page `p` currently lives in some frame.
    pub open spec fn resident(self, p: u64) -> bool {
        self.page_table@.contains_key(p)
    }

    /// The frame index the page table assigns to resident page `p`.
    pub open spec fn slot_of(self, p: u64) -> int {
        self.page_table@[p] as int
    }

    /// The cached bytes of the frame at index `i`.
    pub open spec fn page_contents(self, i: int) -> Seq<u8> {
        self.pool.buffers@[i].buffer.page@
    }

    /// Outcome of a fetch that hit the page table: the resident frame gains
    /// one use and one pin; nothing else moves.
    pub open spec fn fetch_hit(pre: Self, post: Self, p: u64, id: BufferId) -> bool {
        &&& pre.resident(p)
        &&& id.0 as int == pre.slot_of(p)
        &&& post.page_table@ == pre.page_table@
        &&& post.disk == pre.disk
        &&& post.pool.page_size == pre.pool.page_size
        &&& post.pool.next_victim_id == pre.pool.next_victim_id
        &&& frames_same_except(pre.pool.buffers@, post.pool.buffers@, id.0 as int)
        &&& post.pool.buffers@[id.0 as int].buffer == pre.pool.buffers@[id.0 as int].buffer
        &&& post.pool.buffers@[id.0 as int].usage_count == pre.pool.buffers@[id.0 as int].usage_count + 1
        &&& post.pool.buffers@[id.0 as int].pin_count == pre.pool.buffers@[id.0 as int].pin_count + 1
    }

    /// Outcome of a fetch that missed: the frame `id` was evicted (its old
    /// page written back first when dirty), then reloaded with page `p` from
    /// disk, pinned once, and the page table was rewired.
    pub open spec fn fetch_load(pre: Self, post: Self, p: u64, id: BufferId) -> bool {
        let vp = pre.pool.buffers@[id.0 as int].buffer.page_id.0;
        let dirty = pre.pool.buffers@[id.0 as int].buffer.is_dirty;
        &&& !pre.resident(p)
        &&& 0 <= id.0 < pre.pool.buffers@.len()
        &&& pre.pool.buffers@[id.0 as int].pin_count == 0
        &&& forall|w: int|
            0 <= w < pre.pool.buffers@.len() && (#[trigger] pre.pool.buffers@[w]).pin_count == 0
                ==> pre.pool.buffers@[id.0 as int].usage_count <= pre.pool.buffers@[w].usage_count
        &&& post.page_table@ == pre.page_table@.remove(vp).insert(p, id.0 as usize)
        &&& post.disk.page_size == pre.disk.page_size
        &&& post.disk.next_page_id == pre.disk.next_page_id
        &&& (if dirty {
            &&& post.disk.page_stored(vp)
            &&& post.disk.page_at(vp) == pre.pool.buffers@[id.0 as int].buffer.page@
            &&& forall|q: u64|
                q != vp && pre.disk.page_stored(q) ==> post.disk.page_stored(q)
                    && post.disk.page_at(q) == pre.disk.page_at(q)
            &&& forall|q: u64| #[trigger]
                post.disk.page_stored(q) ==> pre.disk.page_stored(q) || q <= vp
        } else {
            post.disk.pages == pre.disk.pages
        })
        &&& post.disk.page_stored(p)
        &&& post.pool.page_size == pre.pool.page_size
        &&& frames_decayed_except(pre.pool.buffers@, post.pool.buffers@, id.0 as int)
        &&& post.pool.buffers@[id.0 as int].buffer.page_id.0 == p
        &&& !post.pool.buffers@[id.0 as int].buffer.is_dirty
        &&& post.pool.buffers@[id.0 as int].buffer.page@ == post.disk.page_at(p)
        &&& post.pool.buffers@[id.0 as int].usage_count == 1
        &&& post.pool.buffers@[id.0 as int].pin_count == 1
    }

    /// Outcome of a successful create: frame `id` was evicted as on a fetch
    /// miss, then reset to an all-zero page stamped with the freshly
    /// allocated id `pid`, marked dirty and pinned once.
    pub open spec fn create_ok(pre: Self, post: Self, id: BufferId, pid: PageId) -> bool {
        let vp = pre.pool.buffers@[id.0 as int].buffer.page_id.0;
        let dirty = pre.pool.buffers@[id.0 as int].buffer.is_dirty;
        &&& pid.0 == pre.disk.next_page_id
        &&& post.disk.next_page_id == pre.disk.next_page_id + 1
        &&& 0 <= id.0 < pre.pool.buffers@.len()
        &&& pre.pool.buffers@[id.0 as int].pin_count == 0
        &&& forall|w: int|
            0 <= w < pre.pool.buffers@.len() && (#[trigger] pre.pool.buffers@[w]).pin_count == 0
                ==> pre.pool.buffers@[id.0 as int].usage_count <= pre.pool.buffers@[w].usage_count
        &&& post.page_table@ == pre.page_table@.remove(vp).insert(pid.0, id.0 as usize)
        &&& post.disk.page_size == pre.disk.page_size
        &&& (if dirty {
            &&& post.disk.page_stored(vp)
            &&& post.disk.page_at(vp) == pre.pool.buffers@[id.0 as int].buffer.page@
            &&& forall|q: u64|
                q != vp && pre.disk.page_stored(q) ==> post.disk.page_stored(q)
                    && post.disk.page_at(q) == pre.disk.page_at(q)
            &&& forall|q: u64| #[trigger]
                post.disk.page_stored(q) ==> pre.disk.page_stored(q) || q <= vp
        } else {
            post.disk.pages == pre.disk.pages
        })
        &&& post.pool.page_size == pre.pool.page_size
        &&& frames_decayed_except(pre.pool.buffers@, post.pool.buffers@, id.0 as int)
        &&& post.pool.buffers@[id.0 as int].buffer.page_id == pid
        &&& post.pool.buffers@[id.0 as int].buffer.is_dirty
        &&& post.pool.buffers@[id.0 as int].buffer.page@ == zero_page_seq(pre.pool.page_size)
        &&& post.pool.buffers@[id.0 as int].usage_count == 1
        &&& post.pool.buffers@[id.0 as int].pin_count == 1
    }

    /// Outcome of a flush: every resident page's on-disk image now matches
    /// its cached bytes, every frame is clean, and nothing else moved.
    pub open spec fn flush_ok(pre: Self, post: Self) -> bool {
        &&& post.page_table@ == pre.page_table@
        &&& post.disk.next_page_id == pre.disk.next_page_id
        &&& post.disk.page_size == pre.disk.page_size
        &&& post.pool.page_size == pre.pool.page_size
        &&& post.pool.next_victim_id == pre.pool.next_victim_id
        &&& post.pool.buffers@.len() == pre.pool.buffers@.len()
        &&& forall|i: int|
            0 <= i < pre.pool.buffers@.len() ==> {
                let f0 = pre.pool.buffers@[i];
                let f1 = #[trigger] post.pool.buffers@[i];
                &&& f1.usage_count == f0.usage_count
                &&& f1.pin_count == f0.pin_count
                &&& f1.buffer.page_id == f0.buffer.page_id
                &&& f1.buffer.page@ == f0.buffer.page@
                &&& !f1.buffer.is_dirty
            }
        &&& forall|p: u64| #[trigger]
            pre.resident(p) ==> post.disk.page_stored(p) && post.disk.page_at(p)
                == pre.page_contents(pre.slot_of(p))
        &&& forall|q: u64|
            pre.disk.page_stored(q) && !pre.resident(q) ==> post.disk.page_stored(q)
                && post.disk.page_at(q) == pre.disk.page_at(q)
    }

    /// Wires a disk manager and an empty pool together; no page is resident.
    pub fn new(disk: DiskManager, pool: BufferPool) -> (r: BufferPoolManager)
        requires
            disk.wf(),
            pool.wf(),
            disk.page_size == pool.page_size,
            forall|i: int|
                0 <= i < pool.buffers@.len() ==> {
                    let f = #[trigger] pool.buffers@[i];
                    &&& f.pin_count == 0
                    &&& !f.buffer.is_dirty
                    &&& f.buffer.page_id.0 == INVALID_PAGE_ID
                },
        ensures
            r.wf(),
            r.disk == disk,
            r.pool == pool,
            r.page_table@ == Map::<u64, usize>::empty(),
    {
        BufferPoolManager { disk, pool, page_table: HashMap::new() }
    }

    /// Where the page table currently places page `page_id`, if anywhere.
    pub fn lookup(&self, page_id: PageId) -> (r: Option<BufferId>)
        requires
            self.wf(),
        ensures
            match r {
                Some(id) => self.resident(page_id.0) && id.0 as int == self.slot_of(page_id.0),
                None => !self.resident(page_id.0),
            },
    {
        match self.page_table.get(&page_id.0) {
            Some(i) => Some(BufferId(*i)),
            None => None,
        }
    }

    /// The cached bytes of the frame behind a handle.
    pub fn page_bytes(&self, buffer_id: BufferId) -> (r: &Vec<u8>)
        requires
            self.wf(),
            buffer_id.0 < self.pool.buffers@.len(),
        ensures
            r@ == self.page_contents(buffer_id.0 as int),
    {
        &self.pool.buffers[buffer_id.0].buffer.page
    }

    /// The page id currently stamped on the frame behind a handle.
    pub fn page_id_of(&self, buffer_id: BufferId) -> (r: PageId)
        requires
            self.wf(),
            buffer_id.0 < self.pool.buffers@.len(),
        ensures
            r == self.pool.buffers@[buffer_id.0 as int].buffer.page_id,
    {
        self.pool.buffers[buffer_id.0].buffer.page_id
    }

    /// Overwrites the page bytes behind a held (pinned) handle and marks the
    /// frame dirty; the write-back at eviction or flush will persist it.
    pub fn write_page_bytes(&mut self, buffer_id: BufferId, data: &Vec<u8>)
        requires
            old(self).wf(),
            buffer_id.0 < old(self).pool.buffers@.len(),
            old(self).pool.buffers@[buffer_id.0 as int].pin_count > 0,
            data@.len() == old(self).pool.page_size,
        ensures
            final(self).wf(),
            final(self).page_table@ == old(self).page_table@,
            final(self).disk == old(self).disk,
            final(self).pool.page_size == old(self).pool.page_size,
            final(self).pool.next_victim_id == old(self).pool.next_victim_id,
            frames_same_except(
                old(self).pool.buffers@,
                final(self).pool.buffers@,
                buffer_id.0 as int,
            ),
            final(self).page_contents(buffer_id.0 as int) == data@,
            final(self).pool.buffers@[buffer_id.0 as int].buffer.is_dirty,
            final(self).pool.buffers@[buffer_id.0 as int].buffer.page_id == old(
                self,
            ).pool.buffers@[buffer_id.0 as int].buffer.page_id,
            final(self).pool.buffers@[buffer_id.0 as int].usage_count == old(
                self,
            ).pool.buffers@[buffer_id.0 as int].usage_count,
            final(self).pool.buffers@[buffer_id.0 as int].pin_count == old(
                self,
            ).pool.buffers@[buffer_id.0 as int].pin_count,
    {
        let i = buffer_id.0;
        let fresh = copy_bytes(data);
        self.pool.buffers[i].buffer.page = fresh;
        self.pool.buffers[i].buffer.is_dirty = true;
    }

    /// Releases one handle to a frame: its pin count drops by one (it stays
    /// at zero if no handle was held); nothing else moves.
    pub fn unpin(&mut self, buffer_id: BufferId)
        requires
            old(self).wf(),
            buffer_id.0 < old(self).pool.buffers@.len(),
        ensures
            final(self).wf(),
            final(self).page_table@ == old(self).page_table@,
            final(self).disk == old(self).disk,
            final(self).pool.page_size == old(self).pool.page_size,
            final(self).pool.next_victim_id == old(self).pool.next_victim_id,
            frames_same_except(
                old(self).pool.buffers@,
                final(self).pool.buffers@,
                buffer_id.0 as int,
            ),
            final(self).pool.buffers@[buffer_id.0 as int].buffer == old(self).pool.buffers@[
                buffer_id.0 as int].buffer,
            final(self).pool.buffers@[buffer_id.0 as int].usage_count == old(
                self,
            ).pool.buffers@[buffer_id.0 as int].usage_count,
            final(self).pool.buffers@[buffer_id.0 as int].pin_count == (if old(
                self,
            ).pool.buffers@[buffer_id.0 as int].pin_count > 0 {
                old(self).pool.buffers@[buffer_id.0 as int].pin_count - 1
            } else {
                0
            }),
    {
        let i = buffer_id.0;
        let c = self.pool.buffers[i].pin_count;
        if c > 0 {
            self.pool.buffers[i].pin_count = c - 1;
        }
    }
}


impl BufferPoolManager {
    /// Returns a pinned handle to page `page_id`. A page-table hit costs no
    /// I/O and bumps the frame's use and pin counts. On a miss a victim
    /// frame is evicted (written back first when dirty), the requested
    /// page's bytes are read from disk into it, and the page table is
    /// rewired. Fails with `NoFreeBuffer` when every frame is pinned, and
    /// with `Io` when the page was never written to disk.
    pub fn fetch_page(&mut self, page_id: PageId) -> (r: Result<BufferId, Error>)
        requires
            old(self).wf(),
            old(self).resident(page_id.0) ==> old(self).pool.buffers@[old(self).slot_of(
                page_id.0,
            )].usage_count < u64::MAX,
        ensures
            final(self).wf(),
            old(self).resident(page_id.0) ==> r is Ok,
            (!old(self).resident(page_id.0) && !old(self).pool.all_pinned() && old(
                self,
            ).disk.page_stored(page_id.0)) ==> r is Ok,
            match r {
                Ok(id) => (if old(self).resident(page_id.0) {
                    Self::fetch_hit(*old(self), *final(self), page_id.0, id)
                } else {
                    Self::fetch_load(*old(self), *final(self), page_id.0, id)
                }),
                Err(e) => {
                    &&& !old(self).resident(page_id.0)
                    &&& (e is NoFreeBuffer ==> {
                        &&& old(self).pool.all_pinned()
                        &&& final(self).page_table@ == old(self).page_table@
                        &&& final(self).disk == old(self).disk
                        &&& final(self).pool.buffers@ == old(self).pool.buffers@
                        &&& final(self).pool.page_size == old(self).pool.page_size
                    })
                    &&& (e is Io ==> {
                        &&& !old(self).pool.all_pinned()
                        &&& !old(self).disk.page_stored(page_id.0)
                        &&& !final(self).disk.page_stored(page_id.0)
                        &&& final(self).page_table@ == old(self).page_table@
                        &&& final(self).disk.next_page_id == old(self).disk.next_page_id
                        &&& final(self).disk.page_size == old(self).disk.page_size
                        &&& final(self).pool.page_size == old(self).pool.page_size
                        &&& final(self).pool.buffers@.len() == old(self).pool.buffers@.len()
                        &&& forall|i: int|
                            0 <= i < old(self).pool.buffers@.len() ==> {
                                let f0 = old(self).pool.buffers@[i];
                                let f1 = #[trigger] final(self).pool.buffers@[i];
                                &&& f1.buffer.page_id == f0.buffer.page_id
                                &&& f1.buffer.page@ == f0.buffer.page@
                                &&& f1.pin_count == f0.pin_count
                                &&& f1.usage_count <= f0.usage_count
                                &&& (f1.buffer.is_dirty ==> f0.buffer.is_dirty)
                            }
                        &&& forall|q: u64|
                            old(self).disk.page_stored(q) && !old(self).resident(q)
                                ==> final(self).disk.page_stored(q)
                                && final(self).disk.page_at(q) == old(self).disk.page_at(q)
                        &&& forall|q: u64|
                            old(self).disk.page_stored(q) && old(self).resident(q)
                                ==> final(self).disk.page_stored(q)
                    })
                },
            },
    {
        let p = page_id.0;
        let hit: Option<usize> = match self.page_table.get(&p) {
            Some(i) => Some(*i),
            None => None,
        };
        if let Some(i) = hit {
            let u = self.pool.buffers[i].usage_count;
            let c = self.pool.buffers[i].pin_count;
            self.pool.buffers[i].usage_count = u + 1;
            self.pool.buffers[i].pin_count = c + 1;
            return Ok(BufferId(i));
        }
        let victim = match self.pool.evict() {
            Some(v) => v,
            None => {
                return Err(Error::NoFreeBuffer);
            },
        };
        let vid = victim.0;
        let evict_page_id = self.pool.buffers[vid].buffer.page_id;
        if self.pool.buffers[vid].buffer.is_dirty {
            let wres = self.disk.write_page_data(
                evict_page_id,
                &self.pool.buffers[vid].buffer.page,
            );
            match wres {
                Ok(u) => u,
                Err(e) => {
                    return Err(e);
                },
            };
            self.pool.buffers[vid].buffer.is_dirty = false;
        }
        let mut tmp = zero_page(self.pool.page_size);
        let rres = self.disk.read_page_data(page_id, &mut tmp);
        match rres {
            Ok(u) => u,
            Err(e) => {
                return Err(e);
            },
        };
        self.page_table.remove(&evict_page_id.0);
        self.pool.buffers[vid].buffer.page_id = page_id;
        self.pool.buffers[vid].buffer.is_dirty = false;
        self.pool.buffers[vid].buffer.page = tmp;
        self.pool.buffers[vid].usage_count = 1;
        self.pool.buffers[vid].pin_count = 1;
        self.page_table.insert(p, vid);
        Ok(victim)
    }
}


impl BufferPoolManager {
    /// Materializes a brand-new all-zero page under a freshly allocated id
    /// and returns a pinned handle to it. The new page is marked dirty (it
    /// is never read from disk but must eventually be persisted). Fails
    /// with `NoFreeBuffer` exactly when every frame is pinned.
    pub fn create_page(&mut self) -> (r: Result<BufferId, Error>)
        requires
            old(self).wf(),
            old(self).disk.next_page_id < usize::MAX as u64,
        ensures
            final(self).wf(),
            r is Err <==> old(self).pool.all_pinned(),
            match r {
                Ok(id) => Self::create_ok(
                    *old(self),
                    *final(self),
                    id,
                    PageId(old(self).disk.next_page_id),
                ),
                Err(e) => {
                    &&& e is NoFreeBuffer
                    &&& final(self).page_table@ == old(self).page_table@
                    &&& final(self).disk == old(self).disk
                    &&& final(self).pool.buffers@ == old(self).pool.buffers@
                    &&& final(self).pool.page_size == old(self).pool.page_size
                },
            },
    {
        let victim = match self.pool.evict() {
            Some(v) => v,
            None => {
                return Err(Error::NoFreeBuffer);
            },
        };
        let vid = victim.0;
        let evict_page_id = self.pool.buffers[vid].buffer.page_id;
        if self.pool.buffers[vid].buffer.is_dirty {
            let wres = self.disk.write_page_data(
                evict_page_id,
                &self.pool.buffers[vid].buffer.page,
            );
            match wres {
                Ok(u) => u,
                Err(e) => {
                    return Err(e);
                },
            };
            self.pool.buffers[vid].buffer.is_dirty = false;
        }
        self.page_table.remove(&evict_page_id.0);
        let page_id = self.disk.allocate_page();
        let fresh = zero_page(self.pool.page_size);
        self.pool.buffers[vid].buffer.page_id = page_id;
        self.pool.buffers[vid].buffer.is_dirty = true;
        self.pool.buffers[vid].buffer.page = fresh;
        self.pool.buffers[vid].usage_count = 1;
        self.pool.buffers[vid].pin_count = 1;
        self.page_table.insert(page_id.0, vid);
        Ok(victim)
    }

    /// Full checkpoint: writes every resident page's current bytes back to
    /// disk unconditionally (not just the dirty ones) and clears every
    /// dirty flag. Afterwards each resident page's on-disk image matches
    /// memory.
    pub fn flush(&mut self) -> (r: Result<(), Error>)
        requires
            old(self).wf(),
        ensures
            final(self).wf(),
            r is Ok,
            Self::flush_ok(*old(self), *final(self)),
    {
        let n = self.pool.buffers.len();
        let mut i: usize = 0;
        while i < n
            invariant
                self.wf(),
                n == self.pool.buffers@.len(),
                i <= n,
                self.page_table@ == old(self).page_table@,
                self.disk.next_page_id == old(self).disk.next_page_id,
                self.disk.page_size == old(self).disk.page_size,
                self.pool.page_size == old(self).pool.page_size,
                self.pool.next_victim_id == old(self).pool.next_victim_id,
                self.pool.buffers@.len() == old(self).pool.buffers@.len(),
                forall|j: int|
                    0 <= j < n ==> {
                        let f0 = old(self).pool.buffers@[j];
                        let f1 = #[trigger] self.pool.buffers@[j];
                        &&& f1.usage_count == f0.usage_count
                        &&& f1.pin_count == f0.pin_count
                        &&& f1.buffer.page_id == f0.buffer.page_id
                        &&& f1.buffer.page@ == f0.buffer.page@
                        &&& (f1.buffer.is_dirty ==> f0.buffer.is_dirty)
                    },
                forall|j: int|
                    0 <= j < i ==> !(#[trigger] self.pool.buffers@[j]).buffer.is_dirty,
                forall|p: u64|
                    #[trigger] old(self).resident(p) && old(self).slot_of(p) < i ==> self.disk.page_stored(
                        p,
                    ) && self.disk.page_at(p) == old(self).page_contents(old(self).slot_of(p)),
                forall|p: u64|
                    #[trigger] old(self).resident(p) && old(self).slot_of(p) >= i
                        && old(self).disk.page_stored(p) ==> self.disk.page_stored(p)
                        && self.disk.page_at(p) == old(self).disk.page_at(p),
                forall|q: u64|
                    old(self).disk.page_stored(q) && !old(self).resident(q) ==> self.disk.page_stored(
                        q,
                    ) && self.disk.page_at(q) == old(self).disk.page_at(q),
            decreases n - i,
        {
            let pid = self.pool.buffers[i].buffer.page_id;
            if pid.0 != INVALID_PAGE_ID {
                proof {
                    assert(self.page_table@.contains_key(pid.0));
                    assert(self.page_table@[pid.0] == i);
                }
                let wres = self.disk.write_page_data(pid, &self.pool.buffers[i].buffer.page);
                match wres {
                    Ok(u) => u,
                    Err(e) => {
                        return Err(e);
                    },
                };
                self.pool.buffers[i].buffer.is_dirty = false;
                proof {
                    assert forall|p: u64|
                        #[trigger] old(self).resident(p) && old(self).slot_of(p) < i + 1 implies self.disk.page_stored(
                        p,
                    ) && self.disk.page_at(p) == old(self).page_contents(old(self).slot_of(p)) by {
                        if old(self).slot_of(p) == i as int {
                            assert(p == pid.0);
                        } else {
                            assert(p != pid.0);
                        }
                    }
                }
            } else {
                proof {
                    assert(!self.pool.buffers@[i as int].buffer.is_dirty);
                    assert forall|p: u64|
                        #[trigger] old(self).resident(p) && old(self).slot_of(p) < i + 1 implies self.disk.page_stored(
                        p,
                    ) && self.disk.page_at(p) == old(self).page_contents(old(self).slot_of(p)) by {
                        assert(old(self).slot_of(p) != i as int);
                    }
                }
            }
            i = i + 1;
        }
        Ok(())
    }
}


/// Law: two consecutive fetches of the same page on the same manager hand
/// out the same slot with identical content, and the page table maps the
/// page to that slot both times. The hypotheses are exactly what
/// `fetch_page` ensures for each of the two calls.
pub proof fn lemma_fetch_fetch_same_slot(
    m0: BufferPoolManager,
    m1: BufferPoolManager,
    m2: BufferPoolManager,
    p: u64,
    id1: BufferId,
    id2: BufferId,
)
    requires
        m0.wf(),
        m1.wf(),
        (if m0.resident(p) {
            BufferPoolManager::fetch_hit(m0, m1, p, id1)
        } else {
            BufferPoolManager::fetch_load(m0, m1, p, id1)
        }),
        (if m1.resident(p) {
            BufferPoolManager::fetch_hit(m1, m2, p, id2)
        } else {
            BufferPoolManager::fetch_load(m1, m2, p, id2)
        }),
    ensures
        id2 == id1,
        m1.resident(p) && m1.slot_of(p) == id1.0 as int,
        m2.resident(p) && m2.slot_of(p) == id1.0 as int,
        m2.page_contents(id2.0 as int) == m1.page_contents(id1.0 as int),
{
    if m0.resident(p) {
        assert(m1.page_table@ == m0.page_table@);
        assert(m1.resident(p) && m1.slot_of(p) == id1.0 as int);
    } else {
        let vp = m0.pool.buffers@[id1.0 as int].buffer.page_id.0;
        assert(m1.page_table@ == m0.page_table@.remove(vp).insert(p, id1.0 as usize));
        assert(m1.resident(p) && m1.slot_of(p) == id1.0 as int);
    }
    assert(BufferPoolManager::fetch_hit(m1, m2, p, id2));
    assert(id2.0 == id1.0);
}

/// Law: bytes written through a handle survive eviction. If page `p` is
/// resident and dirty with content `data`, a fetch of another page `q`
/// that evicts `p`'s frame writes `data` back to disk, and a later fetch
/// of `p` reloads exactly `data`. The hypotheses are what `fetch_page`
/// ensures for the two misses.
pub proof fn lemma_round_trip_through_eviction(
    m0: BufferPoolManager,
    m1: BufferPoolManager,
    m2: BufferPoolManager,
    p: u64,
    q: u64,
    vict: BufferId,
    id2: BufferId,
    data: Seq<u8>,
)
    requires
        m0.wf(),
        m1.wf(),
        m0.resident(p),
        vict.0 as int == m0.slot_of(p),
        m0.pool.buffers@[m0.slot_of(p)].buffer.is_dirty,
        m0.page_contents(m0.slot_of(p)) == data,
        BufferPoolManager::fetch_load(m0, m1, q, vict),
        BufferPoolManager::fetch_load(m1, m2, p, id2),
    ensures
        m2.page_contents(id2.0 as int) == data,
{
    let vp = m0.pool.buffers@[vict.0 as int].buffer.page_id.0;
    assert(vp == p);
    assert(m1.disk.page_stored(p) && m1.disk.page_at(p) == data);
    assert(q != p);
    let vp2 = m1.pool.buffers@[id2.0 as int].buffer.page_id.0;
    if m1.pool.buffers@[id2.0 as int].buffer.is_dirty {
        assert(vp2 != INVALID_PAGE_ID);
        assert(m1.page_table@.contains_key(vp2));
        assert(!m1.page_table@.contains_key(p));
        assert(vp2 != p);
        assert(m2.disk.page_at(p) == m1.disk.page_at(p));
    } else {
        assert(m2.disk.pages == m1.disk.pages);
    }
    assert(m2.page_contents(id2.0 as int) == m2.disk.page_at(p));
}

/// Law: page ids are never reused. `create_page` returns the allocator
/// counter and leaves it strictly larger, and no operation ever decreases
/// the counter, so the ids of any two allocations in one manager's
/// lifetime differ — and every created page starts all-zero.
pub proof fn lemma_create_ids_never_reused(
    m0: BufferPoolManager,
    m1: BufferPoolManager,
    m2: BufferPoolManager,
    m3: BufferPoolManager,
    id_a: BufferId,
    pid_a: PageId,
    id_b: BufferId,
    pid_b: PageId,
)
    requires
        BufferPoolManager::create_ok(m0, m1, id_a, pid_a),
        m1.disk.next_page_id <= m2.disk.next_page_id,
        BufferPoolManager::create_ok(m2, m3, id_b, pid_b),
    ensures
        pid_b.0 > pid_a.0,
        pid_a.0 != pid_b.0,
        m3.page_contents(id_b.0 as int) == zero_page_seq(m2.pool.page_size),
{
}

/// Law: flushing persists every resident page. After `flush`, a fresh
/// manager opened over the flushed disk image serves any page that was
/// resident at flush time with exactly the bytes it had in memory just
/// before the flush. The hypotheses are what `flush`, the constructors
/// and `fetch_page` ensure.
pub proof fn lemma_flush_then_reopen(
    m0: BufferPoolManager,
    m1: BufferPoolManager,
    fresh0: BufferPoolManager,
    fresh1: BufferPoolManager,
    p: u64,
    id: BufferId,
)
    requires
        m0.wf(),
        BufferPoolManager::flush_ok(m0, m1),
        m0.resident(p),
        fresh0.wf(),
        fresh0.disk.page_size == m1.disk.page_size,
        forall|q: u64| #[trigger] fresh0.disk.page_stored(q) <==> m1.disk.page_stored(q),
        forall|q: u64|
            m1.disk.page_stored(q) ==> #[trigger] fresh0.disk.page_at(q) == m1.disk.page_at(q),
        !fresh0.pool.buffers@[id.0 as int].buffer.is_dirty,
        BufferPoolManager::fetch_load(fresh0, fresh1, p, id),
    ensures
        fresh1.page_contents(id.0 as int) == m0.page_contents(m0.slot_of(p)),
{
    assert(m1.disk.page_stored(p) && m1.disk.page_at(p) == m0.page_contents(m0.slot_of(p)));
    assert(fresh0.disk.page_stored(p));
    assert(fresh1.disk.pages == fresh0.disk.pages);
    assert(fresh1.page_contents(id.0 as int) == fresh1.disk.page_at(p));
}


/// Law: eviction ordering. The clock sweep's victim always carries the
/// minimum use-count among the unpinned frames (as `evict` ensures), so of
/// two unpinned pages the one with the strictly higher use-count is never
/// selected while the other is still unpinned and resident: repeated
/// eviction reaches the lower-use-count page no later than the higher one.
pub proof fn lemma_evict_lower_use_count_first(
    pool: BufferPool,
    victim: BufferId,
    i: int,
    j: int,
)
    requires
        pool.wf(),
        0 <= i < pool.buffers@.len(),
        0 <= j < pool.buffers@.len(),
        pool.buffers@[i].pin_count == 0,
        pool.buffers@[j].pin_count == 0,
        pool.buffers@[i].usage_count < pool.buffers@[j].usage_count,
        victim.0 < pool.buffers@.len(),
        forall|w: int|
            0 <= w < pool.buffers@.len() && (#[trigger] pool.buffers@[w]).pin_count == 0
                ==> pool.buffers@[victim.0 as int].usage_count <= pool.buffers@[w].usage_count,
    ensures
        victim.0 as int != j,
{
    assert(pool.buffers@[victim.0 as int].usage_count <= pool.buffers@[i].usage_count);
}

} // verus!
