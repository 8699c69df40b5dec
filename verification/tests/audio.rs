use rxbms::audio::{AudioCache, LRU_CACHE_MAX};

fn pcm() -> Vec<f32> {
    vec![0.0; 8]
}

#[test]
fn cache_refcount_and_eviction() {
    let mut c: AudioCache<Vec<f32>> = AudioCache::default();
    let a: u64 = 1;
    let b: u64 = 2;

    // two leases on a, one on b
    let l1 = c.acquire(&[a]);
    let l2 = c.acquire(&[a, b]);
    assert_eq!(c.reference_count(a), Some(2));
    assert_eq!(c.reference_count(b), Some(1));

    // ready once both priority sounds are decoded
    c.mark_priority(a);
    c.mark_priority(b);
    c.insert_ready(a, pcm());
    c.insert_ready(b, pcm());
    assert!(c.is_ready());
    assert_eq!(c.progress(), (2, 2));
    assert!(c.get(a).is_some());

    // one release: one reference left, still cached
    c.release(&l1);
    assert_eq!(c.reference_count(a), Some(1));
    assert!(c.get(a).is_some());

    // all released: no references, still cached (LRU under its limit)
    c.release(&l2);
    assert_eq!(c.reference_count(a), None);
    assert!(c.get(a).is_some());
    assert!(c.get(b).is_some());
}

#[test]
fn lru_evicts_unreferenced() {
    let mut c: AudioCache<Vec<f32>> = AudioCache::default();
    let ids: Vec<u64> = (0..(LRU_CACHE_MAX as u64 + 4)).collect();
    let lease = c.acquire(&ids);
    for &id in &ids {
        c.insert_ready(id, pcm());
    }
    c.release(&lease);
    assert!(c.len() <= LRU_CACHE_MAX, "len={}", c.len());
    assert!(c.get(ids[0]).is_none(), "the oldest is evicted");
    assert!(c.get(ids[ids.len() - 1]).is_some(), "the newest stays");
}

#[test]
fn held_entries_survive_eviction() {
    let mut c: AudioCache<u32> = AudioCache::new();
    let held = c.acquire(&[0]);
    let others: Vec<u64> = (1..(LRU_CACHE_MAX as u64 + 10)).collect();
    let lease = c.acquire(&others);
    c.insert_ready(0, 7);
    for &id in &others {
        c.insert_ready(id, 1);
    }
    c.release(&lease);
    assert_eq!(c.get(0), Some(&7), "a held entry is never evicted");
    assert!(c.len() <= LRU_CACHE_MAX);
    c.release(&held);
    assert_eq!(c.reference_count(0), None);
}

#[test]
fn release_undoes_acquire_counts() {
    let mut c: AudioCache<u8> = AudioCache::new();
    let l1 = c.acquire(&[5, 5, 6]);
    assert_eq!(c.reference_count(5), Some(2));
    let l2 = c.acquire(&[6]);
    c.release(&l2);
    assert_eq!(c.reference_count(6), Some(1));
    c.release(&l1);
    assert_eq!(c.reference_count(5), None);
    assert_eq!(c.reference_count(6), None);
    // releasing again never goes below zero
    c.release(&l1);
    assert_eq!(c.reference_count(5), None);
}

#[test]
fn progress_counts_priority_entries() {
    let mut c: AudioCache<u8> = AudioCache::new();
    assert!(c.is_ready(), "nothing to wait for");
    c.mark_priority(1);
    c.mark_priority(2);
    c.mark_priority(2);
    assert_eq!(c.progress(), (0, 2));
    assert!(!c.is_ready());
    c.insert_ready(2, 0);
    assert_eq!(c.progress(), (1, 2));
    c.insert_ready(1, 0);
    assert!(c.is_ready());
}
