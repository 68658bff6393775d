use pagepool::buffer::{BufferPool, BufferPoolManager, Error};
use pagepool::config::{Config, PAGE_SIZE};
use pagepool::disk::{DiskManager, PageId, INVALID_PAGE_ID};

fn manager(pool_size: usize, page_size: usize) -> BufferPoolManager {
    let disk = DiskManager::new(Vec::new(), page_size);
    let pool = BufferPool::new(pool_size, page_size);
    BufferPoolManager::new(disk, pool)
}

fn patterned(page_size: usize, seed: u8) -> Vec<u8> {
    let mut v = Vec::with_capacity(page_size);
    for k in 0..page_size {
        v.push(seed.wrapping_add((k % 251) as u8));
    }
    v
}

#[test]
fn config_default_page_size() {
    let c = Config::default();
    assert_eq!(c.page_size, PAGE_SIZE);
    assert_eq!(c.page_size, 4096);
    let c2 = Config::new(64);
    assert_eq!(c2.page_size, 64);
}

#[test]
fn fetch_twice_same_slot_and_content() {
    let mut m = manager(2, 64);
    let h = m.create_page().unwrap();
    assert_eq!(m.page_id_of(h), PageId(0));
    let data = patterned(64, 7);
    m.write_page_bytes(h, &data);

    let f1 = m.fetch_page(PageId(0)).unwrap();
    let slot1 = m.lookup(PageId(0)).unwrap();
    let bytes1 = m.page_bytes(f1).clone();
    let f2 = m.fetch_page(PageId(0)).unwrap();
    let slot2 = m.lookup(PageId(0)).unwrap();
    let bytes2 = m.page_bytes(f2).clone();

    assert_eq!(f1, f2);
    assert_eq!(slot1, slot2);
    assert_eq!(bytes1, bytes2);
    assert_eq!(bytes1, data);
    m.unpin(h);
    m.unpin(f1);
    m.unpin(f2);
}

#[test]
fn round_trip_after_eviction() {
    let mut m = manager(1, 64);
    let h = m.create_page().unwrap();
    let data = patterned(64, 42);
    m.write_page_bytes(h, &data);
    m.unpin(h);

    // Fill the single-frame pool with another page: evicts page 0,
    // writing its dirty bytes back to disk first.
    let h2 = m.create_page().unwrap();
    assert_eq!(m.page_id_of(h2), PageId(1));
    assert!(m.lookup(PageId(0)).is_none());
    m.unpin(h2);

    let h3 = m.fetch_page(PageId(0)).unwrap();
    assert_eq!(m.page_bytes(h3).as_slice(), data.as_slice());
    m.unpin(h3);
}

#[test]
fn create_page_zeroed_unique_ids() {
    let mut m = manager(2, 64);
    let mut seen = Vec::new();
    for _ in 0..5 {
        let h = m.create_page().unwrap();
        let pid = m.page_id_of(h);
        assert!(!seen.contains(&pid.0));
        seen.push(pid.0);
        assert!(m.page_bytes(h).iter().all(|&b| b == 0));
        assert_eq!(m.page_bytes(h).len(), 64);
        m.unpin(h);
    }
    assert_eq!(seen, vec![0, 1, 2, 3, 4]);
}

#[test]
fn pool_exhaustion_and_release() {
    let mut m = manager(2, 64);
    let h0 = m.create_page().unwrap();
    let h1 = m.create_page().unwrap();

    // Both frames pinned: neither a new page nor a fetch of an absent
    // page can find a victim.
    assert_eq!(m.create_page().unwrap_err(), Error::NoFreeBuffer);
    assert_eq!(m.fetch_page(PageId(5)).unwrap_err(), Error::NoFreeBuffer);

    m.unpin(h0);
    m.unpin(h1);
    let h2 = m.create_page().unwrap();
    assert_eq!(m.page_id_of(h2), PageId(2));
    m.unpin(h2);
}

#[test]
fn fetch_unwritten_page_is_io_error() {
    let mut m = manager(2, 64);
    assert_eq!(m.fetch_page(PageId(3)).unwrap_err(), Error::Io);
}

#[test]
fn flush_then_reopen() {
    let page_size = 64;
    let mut m = manager(2, page_size);
    let h0 = m.create_page().unwrap();
    let h1 = m.create_page().unwrap();
    let data0 = patterned(page_size, 1);
    let data1 = patterned(page_size, 2);
    m.write_page_bytes(h0, &data0);
    m.write_page_bytes(h1, &data1);
    m.unpin(h0);
    m.unpin(h1);

    m.flush().unwrap();
    let image = m.disk.heap_bytes();
    assert_eq!(image.len(), 2 * page_size);

    let mut m2 = BufferPoolManager::new(
        DiskManager::new(image, page_size),
        BufferPool::new(2, page_size),
    );
    let g0 = m2.fetch_page(PageId(0)).unwrap();
    assert_eq!(m2.page_bytes(g0).as_slice(), data0.as_slice());
    m2.unpin(g0);
    let g1 = m2.fetch_page(PageId(1)).unwrap();
    assert_eq!(m2.page_bytes(g1).as_slice(), data1.as_slice());
    m2.unpin(g1);
}

#[test]
fn heap_file_layout_by_page_offset() {
    let page_size = 16;
    let mut m = manager(2, page_size);
    let h0 = m.create_page().unwrap();
    let h1 = m.create_page().unwrap();
    let data0 = patterned(page_size, 10);
    let data1 = patterned(page_size, 20);
    m.write_page_bytes(h0, &data0);
    m.write_page_bytes(h1, &data1);
    m.unpin(h0);
    m.unpin(h1);
    m.flush().unwrap();

    // Page i occupies bytes [i * page_size, (i + 1) * page_size).
    let image = m.disk.heap_bytes();
    assert_eq!(&image[0..page_size], data0.as_slice());
    assert_eq!(&image[page_size..2 * page_size], data1.as_slice());

    // A disk manager reopened over the image sees the allocator past both.
    let d = DiskManager::new(image, page_size);
    assert_eq!(d.next_page_id, 2);
}

#[test]
fn evict_prefers_lower_use_count() {
    let mut m = manager(2, 64);
    let h0 = m.create_page().unwrap();
    let h1 = m.create_page().unwrap();
    // Bump page 0's use-count well above page 1's.
    let f0a = m.fetch_page(PageId(0)).unwrap();
    let f0b = m.fetch_page(PageId(0)).unwrap();
    m.unpin(h0);
    m.unpin(f0a);
    m.unpin(f0b);
    m.unpin(h1);

    // Both resident and unpinned; repeated eviction decays use-counts and
    // must pick the lower-use-count page (page 1) no later than page 0.
    let h2 = m.create_page().unwrap();
    assert_eq!(m.page_id_of(h2), PageId(2));
    assert!(m.lookup(PageId(0)).is_some());
    assert!(m.lookup(PageId(1)).is_none());
    m.unpin(h2);
}

#[test]
fn scenario_two_frame_pool() {
    // Page size 4096, pool capacity 2.
    let mut m = manager(2, 4096);
    let h0 = m.create_page().unwrap();
    assert_eq!(m.page_id_of(h0), PageId(0));
    let h1 = m.create_page().unwrap();
    assert_eq!(m.page_id_of(h1), PageId(1));

    // Bump page 0's use-count while both handles stay held.
    let f0 = m.fetch_page(PageId(0)).unwrap();

    // A third create finds every frame pinned.
    assert_eq!(m.create_page().unwrap_err(), Error::NoFreeBuffer);

    // After dropping all handles the same call succeeds and evicts the
    // frame the clock hand reaches with its use-count decayed to zero:
    // page 1, whose count was lower.
    m.unpin(h0);
    m.unpin(f0);
    m.unpin(h1);
    let h2 = m.create_page().unwrap();
    assert_eq!(m.page_id_of(h2), PageId(2));
    assert!(m.lookup(PageId(1)).is_none());
    assert!(m.lookup(PageId(0)).is_some());
    m.unpin(h2);
}

#[test]
fn page_id_codec() {
    let p = PageId(0x0123_4567_89ab_cdef);
    let bytes = p.to_le_bytes();
    assert_eq!(bytes.len(), 8);
    // Little-endian: lowest byte first.
    assert_eq!(bytes[0], 0xef);
    assert_eq!(bytes[7], 0x01);
    let back = PageId::from_le_bytes(&bytes);
    assert_eq!(back, p);
}

#[test]
fn page_id_valid_and_defaults() {
    assert_eq!(PageId(7).valid(), Some(PageId(7)));
    assert_eq!(PageId(INVALID_PAGE_ID).valid(), None);
    assert_eq!(PageId::default(), PageId(0));
    // An absent page id encodes as 0.
    assert_eq!(PageId::from(None), PageId(0));
    assert_eq!(PageId::from(Some(PageId(9))), PageId(9));
}

#[test]
fn buffer_default_is_clean_and_zeroed() {
    let b = pagepool::buffer::Buffer::default();
    assert_eq!(b.page_id, PageId(0));
    assert!(!b.is_dirty);
    assert_eq!(b.page.len(), PAGE_SIZE);
    assert!(b.page.iter().all(|&x| x == 0));
}
