use vstd::prelude::*;
use vstd::arithmetic::div_mod::lemma_fundamental_div_mod;
use vstd::arithmetic::mul::{lemma_mul_inequality, lemma_mul_is_commutative};
use vstd::bytes::{spec_u64_from_le_bytes, spec_u64_to_le_bytes, u64_from_le_bytes, u64_to_le_bytes};
use vstd::bytes::lemma_auto_spec_u64_to_from_le_bytes;
use crate::buffer::Error;

verus! {

/// Reserved all-ones page id: marks "no page here". It is never returned by
/// allocation, so it can safely stamp pool frames that hold no page yet.
pub const INVALID_PAGE_ID: u64 = 0xffff_ffff_ffff_ffff;

/// Logical page number inside the heap file. Page `i` occupies bytes
/// `[i * page_size, (i + 1) * page_size)` of the file.
#[derive(Debug, Clone, Copy, PartialEq, Eq, PartialOrd, Ord, Hash, Structural)]
pub struct PageId(pub u64);

impl Default for PageId {
    /// An absent page id is represented by the value 0 on the wire.
    fn default() -> (r: PageId)
        ensures
            r.0 == 0,
    {
        PageId(0)
    }
}

impl PageId {
    /// Filters out the reserved sentinel: a stored pointer that reads back as
    /// all ones denotes "no page".
    pub fn valid(&self) -> (r: Option<PageId>)
        ensures
            r == (if self.0 == INVALID_PAGE_ID {
                Option::<PageId>::None
            } else {
                Option::<PageId>::Some(*self)
            }),
    {
        if self.0 == INVALID_PAGE_ID {
            None
        } else {
            Some(*self)
        }
    }

    /// Fixed 8-byte little-endian encoding, for embedding page pointers
    /// inside a page's own bytes.
    pub fn to_le_bytes(&self) -> (r: Vec<u8>)
        ensures
            r@ == spec_u64_to_le_bytes(self.0),
            r@.len() == 8,
    {
        u64_to_le_bytes(self.0)
    }

    /// Decodes a page id from exactly 8 little-endian bytes.
    pub fn from_le_bytes(bytes: &[u8]) -> (r: PageId)
        requires
            bytes@.len() == 8,
        ensures
            r.0 == spec_u64_from_le_bytes(bytes@),
    {
        PageId(u64_from_le_bytes(bytes))
    }
}

/// The encoding and decoding of a page id are mutually inverse, so pointers
/// written into a page read back as the same id.
pub proof fn lemma_page_id_codec_round_trip(x: u64)
    ensures
        spec_u64_from_le_bytes(spec_u64_to_le_bytes(x)) == x,
{
    lemma_auto_spec_u64_to_from_le_bytes();
}

impl From<Option<PageId>> for PageId {
    /// An absent page id encodes as the literal value 0.
    fn from(option: Option<PageId>) -> (r: PageId) {
        match option {
            Some(p) => p,
            None => PageId(0),
        }
    }
}

impl vstd::std_specs::convert::FromSpecImpl<Option<PageId>> for PageId {
    open spec fn obeys_from_spec() -> bool {
        true
    }

    open spec fn from_spec(option: Option<PageId>) -> PageId {
        match option {
            Some(p) => p,
            None => PageId(0),
        }
    }
}

/// The all-zero contents of a freshly materialized page.
pub open spec fn zero_page_seq(page_size: usize) -> Seq<u8> {
    Seq::new(page_size as nat, |i: int| 0u8)
}

/// Builds an all-zero page of the given size.
pub fn zero_page(page_size: usize) -> (r: Vec<u8>)
    ensures
        r@ == zero_page_seq(page_size),
{
    let mut r: Vec<u8> = Vec::new();
    while r.len() < page_size
        invariant
            r@.len() <= page_size,
            forall|m: int| 0 <= m < r@.len() ==> r@[m] == 0u8,
        decreases page_size - r@.len(),
    {
        r.push(0u8);
    }
    proof {
        assert(r@ =~= zero_page_seq(page_size));
    }
    r
}

/// Copies a byte buffer.
pub(crate) fn copy_bytes(src: &Vec<u8>) -> (r: Vec<u8>)
    ensures
        r@ == src@,
{
    let mut r: Vec<u8> = Vec::new();
    let mut k: usize = 0;
    while k < src.len()
        invariant
            k <= src@.len(),
            r@ == src@.subrange(0, k as int),
        decreases src@.len() - k,
    {
        let b = src[k];
        r.push(b);
        k = k + 1;
        proof {
            assert(r@ =~= src@.subrange(0, k as int));
        }
    }
    proof {
        assert(r@ =~= src@);
    }
    r
}

/// Sequential page-id allocator plus raw page read/write against the heap
/// file, whose bytes are held here page by page; page `i` of the flat file
/// image corresponds to `pages[i]`.
pub struct DiskManager {
    /// Cached image of the heap file, one entry per stored page.
    pub pages: Vec<Vec<u8>>,
    /// Monotonically increasing allocator; never reuses an id.
    pub next_page_id: u64,
    /// Bytes per page, fixed for the lifetime of the heap file.
    pub page_size: usize,
}

impl DiskManager {
    pub open spec fn wf(self) -> bool {
        &&& self.page_size > 0
        &&& self.next_page_id <= usize::MAX as u64
        &&& self.pages@.len() <= self.next_page_id
        &&& forall|i: int|
            0 <= i < self.pages@.len() ==> (#[trigger] self.pages@[i])@.len() == self.page_size
    }

    /// Whether page `id` currently has stored bytes.
    pub open spec fn page_stored(self, id: u64) -> bool {
        id < self.pages@.len()
    }

    /// The stored bytes of page `id`.
    pub open spec fn page_at(self, id: u64) -> Seq<u8> {
        self.pages@[id as int]@
    }

    /// Opens a disk manager over the raw bytes of a heap file, seeding the
    /// allocator at file length divided by page size.
    #[verifier::loop_isolation(false)]
    pub fn new(heap_bytes: Vec<u8>, page_size: usize) -> (r: DiskManager)
        requires
            page_size > 0,
            heap_bytes@.len() as int % (page_size as int) == 0,
        ensures
            r.wf(),
            r.page_size == page_size,
            r.pages@.len() == heap_bytes@.len() as int / (page_size as int),
            r.next_page_id == r.pages@.len(),
            forall|i: int|
                0 <= i < r.pages@.len() ==> #[trigger] r.page_at(i as u64) == heap_bytes@.subrange(
                    i * page_size,
                    i * page_size + page_size,
                ),
    {
        let n: usize = heap_bytes.len() / page_size;
        proof {
            lemma_fundamental_div_mod(heap_bytes@.len() as int, page_size as int);
            lemma_mul_is_commutative(n as int, page_size as int);
        }
        let mut pages: Vec<Vec<u8>> = Vec::new();
        let mut off: usize = 0;
        while pages.len() < n
            invariant
                page_size > 0,
                pages@.len() <= n,
                off == pages@.len() * page_size,
                n * page_size == heap_bytes@.len(),
                forall|j: int|
                    0 <= j < pages@.len() ==> (#[trigger] pages@[j])@ == heap_bytes@.subrange(
                        j * page_size,
                        j * page_size + page_size,
                    ),
            decreases n - pages@.len(),
        {
            proof {
                lemma_mul_inequality(pages@.len() as int + 1, n as int, page_size as int);
                assert((pages@.len() as int + 1) * page_size == pages@.len() * page_size
                    + page_size) by (nonlinear_arith);
            }
            let mut page: Vec<u8> = Vec::new();
            let mut k: usize = 0;
            while k < page_size
                invariant
                    k <= page_size,
                    off + page_size <= heap_bytes@.len(),
                    page@ == heap_bytes@.subrange(off as int, off + k),
                decreases page_size - k,
            {
                let b = heap_bytes[off + k];
                page.push(b);
                k = k + 1;
                proof {
                    assert(page@ =~= heap_bytes@.subrange(off as int, off + k));
                }
            }
            pages.push(page);
            off = off + page_size;
        }
        proof {
            assert forall|j: int| 0 <= j < pages@.len() implies (#[trigger] pages@[j])@.len()
                == page_size by {
                lemma_mul_inequality(j + 1, n as int, page_size as int);
                assert((j + 1) * page_size == j * page_size + page_size) by (nonlinear_arith);
                assert(0 <= j * page_size) by (nonlinear_arith)
                    requires
                        0 <= j,
                        0 <= page_size,
                ;
            }
        }
        let next: u64 = n as u64;
        DiskManager { pages, next_page_id: next, page_size }
    }

    /// The flat heap-file image: page `i` occupies bytes
    /// `[i * page_size, (i + 1) * page_size)` of the result.
    #[verifier::loop_isolation(false)]
    pub fn heap_bytes(&self) -> (r: Vec<u8>)
        requires
            self.wf(),
        ensures
            r@.len() == self.pages@.len() * self.page_size,
            r@.len() as int % (self.page_size as int) == 0,
            forall|i: int|
                0 <= i < self.pages@.len() ==> r@.subrange(
                    i * self.page_size,
                    i * self.page_size + self.page_size,
                ) == #[trigger] self.page_at(i as u64),
    {
        let ps = self.page_size;
        let mut out: Vec<u8> = Vec::new();
        let mut i: usize = 0;
        while i < self.pages.len()
            invariant
                self.wf(),
                ps == self.page_size,
                i <= self.pages@.len(),
                out@.len() == i * ps,
                forall|j: int|
                    0 <= j < i ==> out@.subrange(j * ps, j * ps + ps) == (
                    #[trigger] self.pages@[j])@,
            decreases self.pages@.len() - i,
        {
            let ghost snapshot = out@;
            let mut k: usize = 0;
            while k < self.pages[i].len()
                invariant
                    self.wf(),
                    i < self.pages@.len(),
                    k <= self.pages@[i as int]@.len(),
                    out@ == snapshot + self.pages@[i as int]@.subrange(0, k as int),
                decreases self.pages@[i as int]@.len() - k,
            {
                let b = self.pages[i][k];
                out.push(b);
                k = k + 1;
                proof {
                    assert(out@ =~= snapshot + self.pages@[i as int]@.subrange(0, k as int));
                }
            }
            proof {
                assert(out@ =~= snapshot + self.pages@[i as int]@);
                assert((i as int + 1) * ps == i * ps + ps) by (nonlinear_arith);
                assert forall|j: int| 0 <= j < i + 1 implies out@.subrange(j * ps, j * ps + ps)
                    == (#[trigger] self.pages@[j])@ by {
                    assert((j + 1) * ps == j * ps + ps) by (nonlinear_arith);
                    if j < i {
                        lemma_mul_inequality(j + 1, i as int, ps as int);
                        assert(out@.subrange(j * ps, j * ps + ps) =~= snapshot.subrange(
                            j * ps,
                            j * ps + ps,
                        ));
                    } else {
                        assert(out@.subrange(j * ps, j * ps + ps) =~= self.pages@[j]@);
                    }
                }
            }
            i = i + 1;
        }
        proof {
            assert(out@.len() as int % (ps as int) == 0) by {
                vstd::arithmetic::div_mod::lemma_mod_multiples_basic(
                    self.pages@.len() as int,
                    ps as int,
                );
            }
        }
        out
    }

    /// Hands out the current allocator value and advances it; ids are never
    /// reused, and the reserved sentinel is never produced.
    pub fn allocate_page(&mut self) -> (r: PageId)
        requires
            old(self).wf(),
            old(self).next_page_id < usize::MAX as u64,
        ensures
            final(self).wf(),
            r.0 == old(self).next_page_id,
            final(self).next_page_id == old(self).next_page_id + 1,
            final(self).pages == old(self).pages,
            final(self).page_size == old(self).page_size,
            r.0 != INVALID_PAGE_ID,
    {
        let page_id = self.next_page_id;
        self.next_page_id = page_id + 1;
        PageId(page_id)
    }

    /// Stores exactly one page of bytes at the page's slot in the file image,
    /// zero-filling any gap pages a write past the current end creates.
    pub fn write_page_data(&mut self, page_id: PageId, data: &Vec<u8>) -> (r: Result<(), Error>)
        requires
            old(self).wf(),
            page_id.0 < old(self).next_page_id,
            data@.len() == old(self).page_size,
        ensures
            final(self).wf(),
            r is Ok,
            final(self).page_size == old(self).page_size,
            final(self).next_page_id == old(self).next_page_id,
            final(self).page_stored(page_id.0),
            final(self).page_at(page_id.0) == data@,
            final(self).pages@.len() == if old(self).page_stored(page_id.0) {
                old(self).pages@.len() as int
            } else {
                page_id.0 + 1
            },
            forall|q: u64|
                q != page_id.0 && old(self).page_stored(q) ==> final(self).page_stored(q)
                    && final(self).page_at(q) == old(self).page_at(q),
            forall|q: u64|
                old(self).pages@.len() <= q && q < page_id.0 ==> final(self).page_at(q)
                    == zero_page_seq(old(self).page_size),
    {
        let id = page_id.0 as usize;
        while self.pages.len() < id
            invariant
                self.wf(),
                id < usize::MAX,
                self.page_size == old(self).page_size,
                self.next_page_id == old(self).next_page_id,
                id < self.next_page_id,
                old(self).pages@.len() <= self.pages@.len(),
                self.pages@.len() <= id || self.pages@.len() == old(self).pages@.len(),
                forall|j: int|
                    0 <= j < old(self).pages@.len() ==> #[trigger] self.pages@[j]
                        == old(self).pages@[j],
                forall|j: int|
                    old(self).pages@.len() <= j < self.pages@.len() ==> (
                    #[trigger] self.pages@[j])@ == zero_page_seq(self.page_size),
            decreases id - self.pages@.len(),
        {
            let z = zero_page(self.page_size);
            self.pages.push(z);
        }
        let fresh = copy_bytes(data);
        if self.pages.len() == id {
            self.pages.push(fresh);
        } else {
            self.pages[id] = fresh;
        }
        Ok(())
    }

    /// Reads exactly one page of bytes into `data`; fails with an I/O error
    /// when the page lies beyond the end of the file image (a short read).
    pub fn read_page_data(&mut self, page_id: PageId, data: &mut Vec<u8>) -> (r: Result<
        (),
        Error,
    >)
        requires
            old(self).wf(),
            old(data)@.len() == old(self).page_size,
        ensures
            *final(self) == *old(self),
            final(data)@.len() == old(data)@.len(),
            match r {
                Ok(_) => old(self).page_stored(page_id.0) && final(data)@ == old(self).page_at(
                    page_id.0,
                ),
                Err(e) => e is Io && !old(self).page_stored(page_id.0) && final(data)@ == old(data)@,
            },
    {
        if page_id.0 >= self.pages.len() as u64 {
            return Err(Error::Io);
        }
        let id = page_id.0 as usize;
        let fresh = copy_bytes(&self.pages[id]);
        *data = fresh;
        Ok(())
    }
}

} // verus!
