use plotter::block::{Block, BLOCK_CAPACITY};
use plotter::store::ChannelStore;

#[test]
fn lookup_returns_each_appended_value() {
    let mut s = ChannelStore::new();
    let count = 3 * BLOCK_CAPACITY + 17;
    for i in 0..count {
        s.append((i as u64) * 3 + 1);
    }
    assert_eq!(s.len(), count);
    for i in 0..count {
        assert_eq!(s.lookup(i as i64), Some((i as u64) * 3 + 1));
    }
    assert_eq!(s.lookup(count as i64), None);
    assert_eq!(s.lookup(count as i64 + 5000), None);
    assert_eq!(s.lookup(i64::MAX), None);
}

#[test]
fn negative_index_is_none() {
    let mut s = ChannelStore::new();
    s.append(9);
    assert_eq!(s.lookup(-1), None);
    assert_eq!(s.lookup(i64::MIN), None);
    assert_eq!(s.lookup(0), Some(9));
}

#[test]
fn empty_store_has_nothing() {
    let s = ChannelStore::new();
    assert_eq!(s.len(), 0);
    assert_eq!(s.chunk_count(), 0);
    assert_eq!(s.lookup(0), None);
}

#[test]
fn chunk_count_rounds_up() {
    let mut s = ChannelStore::new();
    s.append(1);
    assert_eq!(s.chunk_count(), 1);
    for i in 1..BLOCK_CAPACITY {
        s.append(i as u64);
    }
    assert_eq!(s.chunk_count(), 1);
    s.append(0);
    assert_eq!(s.chunk_count(), 2);
    assert_eq!(s.lookup(BLOCK_CAPACITY as i64), Some(0));
    assert_eq!(s.lookup(BLOCK_CAPACITY as i64 - 1), Some(BLOCK_CAPACITY as u64 - 1));
}

#[test]
fn clear_drops_everything() {
    let mut s = ChannelStore::new();
    for i in 0..(BLOCK_CAPACITY + 3) {
        s.append(i as u64);
    }
    s.clear();
    assert_eq!(s.len(), 0);
    assert_eq!(s.chunk_count(), 0);
    assert_eq!(s.lookup(0), None);
    s.append(42);
    assert_eq!(s.lookup(0), Some(42));
}

#[test]
fn float_bits_survive_the_store() {
    let mut s = ChannelStore::new();
    let values = [0.0f64, -1.5, 1024.0, 100.0];
    for v in values {
        s.append(v.to_bits());
    }
    for (i, v) in values.iter().enumerate() {
        assert_eq!(f64::from_bits(s.lookup(i as i64).unwrap()), *v);
    }
}

#[test]
fn block_fills_to_capacity() {
    let mut b = Block::new();
    assert!(!b.is_full());
    assert_eq!(b.lookup(0), None);
    for i in 0..BLOCK_CAPACITY {
        b.push(i as u64 + 10);
    }
    assert!(b.is_full());
    assert_eq!(b.len(), BLOCK_CAPACITY);
    assert_eq!(b.lookup(0), Some(10));
    assert_eq!(b.lookup(BLOCK_CAPACITY - 1), Some(BLOCK_CAPACITY as u64 + 9));
    assert_eq!(b.lookup(BLOCK_CAPACITY), None);
}
