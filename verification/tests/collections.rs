use microbenchmarks::digests::{Work as DigestWork, DIGEST_SIZE};
use microbenchmarks::mempool::{allocate, Work as FillWork, BUF_CAP};
use microbenchmarks::ordered_map::{Key, VecDequeMap};

#[test]
fn insert_keeps_order_and_replaces_in_place() {
    let mut m: VecDequeMap<u64, &str> = VecDequeMap::new();
    assert_eq!(m.insert(1, "a"), None);
    assert_eq!(m.insert(2, "b"), None);
    assert_eq!(m.insert(1, "c"), Some("a"));
    assert_eq!(m.locate(&1), Some(0));
    assert_eq!(m.locate(&2), Some(1));
    assert_eq!(m.pop_front(), Some((1, "c")));
    assert_eq!(m.pop_front(), Some((2, "b")));
    assert_eq!(m.pop_front(), None);
}

#[test]
fn remove_takes_out_one_entry() {
    let mut m: VecDequeMap<u64, u64> = VecDequeMap::new();
    for k in 0..5 {
        m.insert_unique(k, k * 10);
    }
    assert_eq!(m.remove(&2), Some(20));
    assert_eq!(m.remove(&2), None);
    assert_eq!(m.locate(&3), Some(2));
    assert_eq!(m.pop_front(), Some((0, 0)));
}

#[test]
fn remove_undoes_a_fresh_insert() {
    let mut m: VecDequeMap<u64, u64> = VecDequeMap::new();
    m.insert(7, 70);
    m.insert(8, 80);
    assert_eq!(m.insert(9, 90), None);
    assert_eq!(m.remove(&9), Some(90));
    assert_eq!(m.pop_front(), Some((7, 70)));
    assert_eq!(m.pop_front(), Some((8, 80)));
    assert_eq!(m.pop_front(), None);
}

#[test]
fn keys_count_up_and_wrap() {
    let mut k: Key<4> = Key::new();
    assert_eq!(k.next(), Some([0u8; 4]));
    assert_eq!(k.next(), Some([1u8; 4]));
    for _ in 0..253 {
        k.next();
    }
    assert_eq!(k.next(), Some([255u8; 4]));
    assert_eq!(k.next(), Some([0u8; 4]));
}

#[test]
fn fill_sets_every_byte() {
    let mut w = FillWork::new(9);
    let mut buf = vec![1u8, 2, 3];
    w.fill(&mut buf);
    assert_eq!(buf, vec![9, 9, 9]);
    let mut empty: Vec<u8> = Vec::new();
    w.fill(&mut empty);
    assert!(empty.is_empty());
}

#[test]
fn allocate_gives_an_empty_buffer_with_room() {
    let v = allocate();
    assert!(v.is_empty());
    assert!(v.capacity() >= BUF_CAP);
}

#[test]
fn digests_repeat_a_counting_byte() {
    let mut w = DigestWork::new();
    let d0 = w.digest();
    let d1 = w.digest();
    assert_eq!(d0, [0u8; DIGEST_SIZE]);
    assert_eq!(d1, [1u8; DIGEST_SIZE]);
    assert_ne!(d0, d1);
    assert_eq!(w.x, 2);
}
