use core::cmp::Ordering;

use lsm_core::{Comparator, DefaultComparator, Options};
use lsm_core::partition::{InternalKey, MemTable, PartitionImpl, UserKey};

fn owned(bytes: &[u8]) -> UserKey<DefaultComparator> {
    UserKey::new_owned(bytes.to_vec())
}

fn ikey(seq: u64, bytes: &[u8]) -> InternalKey<DefaultComparator> {
    InternalKey::new(seq, owned(bytes))
}

#[test]
fn it_works() {
    assert_eq!(2 + 2, 4);
}

#[test]
fn comparator_orders_bytes_lexicographically() {
    assert_eq!(DefaultComparator::compare(b"abc", b"abd"), Ordering::Less);
    assert_eq!(DefaultComparator::compare(b"abd", b"abc"), Ordering::Greater);
    assert_eq!(DefaultComparator::compare(b"abc", b"abc"), Ordering::Equal);
    assert_eq!(DefaultComparator::compare(b"ab", b"abc"), Ordering::Less);
    assert_eq!(DefaultComparator::compare(b"abc", b"ab"), Ordering::Greater);
    assert_eq!(DefaultComparator::compare(b"", b""), Ordering::Equal);
    assert_eq!(DefaultComparator::compare(b"", b"a"), Ordering::Less);
}

#[test]
fn comparator_antisymmetric_and_transitive_samples() {
    let samples: [&[u8]; 4] = [b"", b"a", b"ab", b"b"];
    for x in samples.iter() {
        for y in samples.iter() {
            let xy = DefaultComparator::compare(x, y);
            let yx = DefaultComparator::compare(y, x);
            match xy {
                Ordering::Less => assert_eq!(yx, Ordering::Greater),
                Ordering::Equal => assert_eq!(yx, Ordering::Equal),
                Ordering::Greater => assert_eq!(yx, Ordering::Less),
            }
            for z in samples.iter() {
                if xy == Ordering::Less && DefaultComparator::compare(y, z) == Ordering::Less {
                    assert_eq!(DefaultComparator::compare(x, z), Ordering::Less);
                }
            }
        }
    }
}

#[test]
fn user_key_ownership_variants() {
    let o = owned(b"key");
    assert!(o.is_owned());
    let b = UserKey::<DefaultComparator>::new_borrow(b"key");
    assert!(!b.is_owned());
    // ordering never depends on the ownership variant
    assert_eq!(o.cmp(&b), Ordering::Equal);
    assert_eq!(o.key(), &b"key"[..]);
    assert_eq!(b.key(), &b"key"[..]);
}

#[test]
fn internal_key_orders_by_sequence_then_user_key() {
    assert_eq!(ikey(1, b"z").cmp(&ikey(2, b"a")), Ordering::Less);
    assert_eq!(ikey(2, b"a").cmp(&ikey(1, b"z")), Ordering::Greater);
    assert_eq!(ikey(5, b"a").cmp(&ikey(5, b"b")), Ordering::Less);
    assert_eq!(ikey(5, b"b").cmp(&ikey(5, b"a")), Ordering::Greater);
    assert_eq!(ikey(5, b"a").cmp(&ikey(5, b"a")), Ordering::Equal);
}

#[test]
fn memtable_insert_is_idempotent_safe() {
    let mut mt: MemTable<DefaultComparator> = MemTable::new();
    assert!(mt.insert(ikey(1, b"k"), b"first".to_vec()).is_none());
    let prev = mt.insert(ikey(1, b"k"), b"second".to_vec());
    assert_eq!(prev, Some(b"first".to_vec()));
    assert_eq!(mt.len(), 1);
    assert_eq!(mt.get(&ikey(1, b"k")), Some(&b"second".to_vec()));
}

#[test]
fn basic_put_get() {
    let mut p: PartitionImpl<DefaultComparator> = PartitionImpl::new(
        Options { table_size: 4096 },
    );
    p.put(ikey(1, b"a"), b"1".to_vec());
    assert_eq!(p.get(ikey(1, b"a")), Some(b"1".to_vec()));
    assert_eq!(p.get(ikey(1, b"b")), None);
}

#[test]
fn footprint_estimate_formula() {
    let mut p: PartitionImpl<DefaultComparator> = PartitionImpl::new(
        Options { table_size: 4096 },
    );
    // fixed minimum table overhead alone
    assert_eq!(p.memtable_size(), 24);
    p.put(ikey(1, b"a"), b"1".to_vec());
    // one entry: key byte + value byte + 16 bytes of catalog overhead
    assert_eq!(p.memtable_size(), 24 + 1 + 1 + 16);
}

#[test]
fn first_write_sets_both_bounds() {
    let mut p: PartitionImpl<DefaultComparator> = PartitionImpl::new(
        Options { table_size: 4096 },
    );
    {
        let (lower, upper) = p.bounds();
        assert!(lower.is_none() && upper.is_none());
    }
    assert!(p.debug_bounds_sanity_check());
    p.put(ikey(1, b"m"), b"v".to_vec());
    p.put(ikey(2, b"q"), b"w".to_vec());
    let (lower, upper) = p.bounds();
    assert_eq!(lower.unwrap().key(), &b"m"[..]);
    assert_eq!(upper.unwrap().key(), &b"m"[..]);
    assert!(p.debug_bounds_sanity_check());
}

#[test]
fn freeze_threshold_triggers_one_freeze() {
    // head+magic is 24 bytes; each one-byte key/value entry adds 18
    let mut p: PartitionImpl<DefaultComparator> = PartitionImpl::new(Options { table_size: 50 });
    p.put(ikey(1, b"a"), b"1".to_vec());
    assert_eq!(p.memtable_size(), 42);
    // this write would push the estimate to 60: the active table freezes
    p.put(ikey(2, b"b"), b"2".to_vec());
    assert_eq!(p.memtable_size(), 42);
    // both tables answer reads while the flush is pending
    assert_eq!(p.get(ikey(1, b"a")), Some(b"1".to_vec()));
    assert_eq!(p.get(ikey(2, b"b")), Some(b"2".to_vec()));
    // exactly one frozen table exists, holding the first write
    let frozen = p.take_frozen().expect("one frozen table is pending");
    assert_eq!(frozen.len(), 1);
    assert_eq!(frozen.get(&ikey(1, b"a")), Some(&b"1".to_vec()));
    assert!(p.take_frozen().is_none());
}

#[test]
fn partition_range_containment_order() {
    let opts = Options { table_size: 4096 };
    let mut low: PartitionImpl<DefaultComparator> = PartitionImpl::new(opts);
    low.set_lower_bound(owned(b"a"));
    low.set_upper_bound(owned(b"f"));
    let mut high: PartitionImpl<DefaultComparator> = PartitionImpl::new(opts);
    high.set_lower_bound(owned(b"m"));
    high.set_upper_bound(owned(b"z"));

    assert_eq!(low.partial_cmp(&high), Some(Ordering::Less));
    assert_eq!(high.partial_cmp(&low), Some(Ordering::Greater));
    assert_eq!(low.cmp(&high), Ordering::Less);
    assert_eq!(high.cmp(&low), Ordering::Greater);

    let mut overlap: PartitionImpl<DefaultComparator> = PartitionImpl::new(opts);
    overlap.set_lower_bound(owned(b"e"));
    overlap.set_upper_bound(owned(b"n"));
    assert_eq!(low.partial_cmp(&overlap), None);

    assert!(!low.eq(&high));
    assert!(low.debug_never_eq_sanity_check(&high));
    let mut twin: PartitionImpl<DefaultComparator> = PartitionImpl::new(opts);
    twin.set_lower_bound(owned(b"a"));
    twin.set_upper_bound(owned(b"f"));
    assert!(!low.debug_never_eq_sanity_check(&twin));
}
