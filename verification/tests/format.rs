use lsm_core::error::Error;
use lsm_core::table::ScTableFile;
use lsm_core::table::cache::{probe_tables, CacheQuota, ScTableCache, TableCacheManager};
use lsm_core::DefaultComparator;
use lsm_core::table::tablefmt::decode_fixed32;

const MAGIC: [u8; 8] = [0x73, 0x63, 0x74, 0x62, 0x6c, 0x6d, 0x67, 0x63];

fn put_u32(buf: &mut Vec<u8>, v: u32) {
    buf.extend_from_slice(&v.to_le_bytes());
}

/// A structurally sound table buffer for the given entries.
fn build_table(entries: &[(&[u8], &[u8])]) -> Vec<u8> {
    let mut data: Vec<u8> = Vec::new();
    let mut catalog: Vec<u8> = Vec::new();
    for (k, v) in entries {
        let key_off = data.len() as u32;
        data.extend_from_slice(k);
        let value_off = data.len() as u32;
        data.extend_from_slice(v);
        put_u32(&mut catalog, key_off);
        put_u32(&mut catalog, k.len() as u32);
        put_u32(&mut catalog, value_off);
        put_u32(&mut catalog, v.len() as u32);
    }
    let mut buf: Vec<u8> = Vec::new();
    put_u32(&mut buf, catalog.len() as u32);
    put_u32(&mut buf, data.len() as u32);
    put_u32(&mut buf, crc::crc32::checksum_ieee(&catalog));
    put_u32(&mut buf, crc::crc32::checksum_ieee(&data));
    buf.extend_from_slice(&catalog);
    buf.extend_from_slice(&data);
    buf.extend_from_slice(&MAGIC);
    buf
}

fn fresh_quota() -> CacheQuota {
    let mut mgr = TableCacheManager::new(8);
    mgr.allocate_quota()
}

fn parse(raw: &[u8]) -> Result<ScTableCache, (Error, CacheQuota)> {
    ScTableCache::from_raw(raw, fresh_quota())
}

fn reason(r: Result<ScTableCache, (Error, CacheQuota)>) -> String {
    match r {
        Ok(_) => panic!("expected a corruption error"),
        Err((e, _quota)) => e.reason().clone(),
    }
}

#[test]
fn decode_fixed32_little_endian() {
    assert_eq!(decode_fixed32(&[0x78, 0x56, 0x34, 0x12]), 0x12345678);
    assert_eq!(decode_fixed32(&[0xff, 0xff, 0xff, 0xff]), u32::MAX);
    assert_eq!(decode_fixed32(&[0, 0, 0, 0]), 0);
}

#[test]
fn round_trip_two_entries() {
    let raw = build_table(&[(b"apple", b"red"), (b"banana", b"yellow")]);
    let table = parse(&raw).expect("a sound buffer must parse");
    assert_eq!(table.catalog_len(), 2);
    assert_eq!(table.key_at(0), &b"apple"[..]);
    assert_eq!(table.value_at(0), &b"red"[..]);
    assert_eq!(table.key_at(1), &b"banana"[..]);
    assert_eq!(table.value_at(1), &b"yellow"[..]);
}

#[test]
fn round_trip_empty_catalog() {
    let raw = build_table(&[]);
    let table = parse(&raw).expect("a sound empty table must parse");
    assert_eq!(table.catalog_len(), 0);
}

#[test]
fn corruption_any_single_byte_flip_fails() {
    let raw = build_table(&[(b"k1", b"v1"), (b"key-two", b"value-two")]);
    // every byte of the catalog and data regions is covered by a checksum
    let body_end = raw.len() - MAGIC.len();
    for i in 16..body_end {
        let mut bad = raw.clone();
        bad[i] ^= 0x40;
        assert!(parse(&bad).is_err(), "flip at {} must be detected", i);
    }
}

#[test]
fn corruption_truncated_buffer() {
    let raw = vec![0u8; 10];
    assert_eq!(reason(parse(&raw)), "too small to be a table file");
}

#[test]
fn corruption_bad_magic() {
    let mut raw = build_table(&[(b"a", b"b")]);
    let n = raw.len();
    raw[n - 1] ^= 0xff;
    assert_eq!(reason(parse(&raw)), "incorrect table magic");
}

#[test]
fn corruption_catalog_size_not_aligned() {
    let mut raw = build_table(&[(b"a", b"b")]);
    let bad_size = (16u32 + 1).to_le_bytes();
    raw[0..4].copy_from_slice(&bad_size);
    assert_eq!(reason(parse(&raw)), "catalog size should be multiplication of 16");
}

#[test]
fn corruption_size_mismatch() {
    let mut raw = build_table(&[(b"a", b"b")]);
    let bad_size = (16u32 + 16).to_le_bytes();
    raw[0..4].copy_from_slice(&bad_size);
    assert_eq!(reason(parse(&raw)), "incorrect table size");
}

#[test]
fn corruption_catalog_crc() {
    let mut raw = build_table(&[(b"a", b"b")]);
    raw[16] ^= 0x01;
    assert_eq!(reason(parse(&raw)), "incorrect kv_catalog crc");
}

#[test]
fn corruption_data_crc() {
    let mut raw = build_table(&[(b"a", b"b")]);
    raw[16 + 16] ^= 0x01;
    assert_eq!(reason(parse(&raw)), "incorrect data crc");
}

#[test]
fn corruption_item_out_of_range() {
    // one entry whose declared key length runs past the data region,
    // with the checksums recomputed so only the bounds check can fail
    let mut catalog: Vec<u8> = Vec::new();
    put_u32(&mut catalog, 0);
    put_u32(&mut catalog, 100);
    put_u32(&mut catalog, 0);
    put_u32(&mut catalog, 1);
    let data: Vec<u8> = vec![7, 8, 9];
    let mut raw: Vec<u8> = Vec::new();
    put_u32(&mut raw, catalog.len() as u32);
    put_u32(&mut raw, data.len() as u32);
    put_u32(&mut raw, crc::crc32::checksum_ieee(&catalog));
    put_u32(&mut raw, crc::crc32::checksum_ieee(&data));
    raw.extend_from_slice(&catalog);
    raw.extend_from_slice(&data);
    raw.extend_from_slice(&MAGIC);
    assert_eq!(reason(parse(&raw)), "incorrect key/value catalog data");
}

#[test]
fn lookup_probes_catalog_by_key() {
    let raw = build_table(&[(b"apple", b"red"), (b"banana", b"yellow")]);
    let table = parse(&raw).unwrap();
    assert_eq!(table.lookup::<lsm_core::DefaultComparator>(b"banana"), Some(&b"yellow"[..]));
    assert_eq!(table.lookup::<lsm_core::DefaultComparator>(b"apple"), Some(&b"red"[..]));
    assert_eq!(table.lookup::<lsm_core::DefaultComparator>(b"cherry"), None);
}

#[test]
fn item_ending_at_region_end_is_valid() {
    // one entry spanning the whole data region: its ranges end exactly at
    // the region's end, which is inside it
    let mut catalog: Vec<u8> = Vec::new();
    put_u32(&mut catalog, 0);
    put_u32(&mut catalog, 2);
    put_u32(&mut catalog, 2);
    put_u32(&mut catalog, 1);
    let data: Vec<u8> = vec![10, 11, 12];
    let mut raw: Vec<u8> = Vec::new();
    put_u32(&mut raw, catalog.len() as u32);
    put_u32(&mut raw, data.len() as u32);
    put_u32(&mut raw, crc::crc32::checksum_ieee(&catalog));
    put_u32(&mut raw, crc::crc32::checksum_ieee(&data));
    raw.extend_from_slice(&catalog);
    raw.extend_from_slice(&data);
    raw.extend_from_slice(&MAGIC);
    let table = parse(&raw).expect("a range ending at the region end is in range");
    assert_eq!(table.key_at(0), &[10, 11][..]);
    assert_eq!(table.value_at(0), &[12][..]);
}

#[test]
fn failed_parse_hands_the_quota_back() {
    let mut mgr = TableCacheManager::new(1);
    let quota = mgr.allocate_quota();
    assert_eq!(mgr.live_quota(), 1);
    let garbage = vec![0u8; 64];
    match ScTableCache::from_raw(&garbage, quota) {
        Ok(_) => panic!("garbage must not parse"),
        Err((_, quota)) => mgr.on_cache_released(quota),
    }
    assert_eq!(mgr.live_quota(), 0);
}

#[test]
fn teardown_returns_the_quota() {
    let mut mgr = TableCacheManager::new(1);
    let quota = mgr.allocate_quota();
    let raw = build_table(&[(b"k", b"v")]);
    let table = ScTableCache::from_raw(&raw, quota).unwrap();
    assert_eq!(mgr.live_quota(), 1);
    mgr.on_cache_released(table.into_quota());
    assert_eq!(mgr.live_quota(), 0);
}

#[test]
fn lookup_hit_promotes_against_eviction() {
    let mut mgr = TableCacheManager::new(2);
    let q_a = mgr.allocate_quota();
    let q_b = mgr.allocate_quota();
    let mut other = TableCacheManager::new(1);
    let q_c = other.allocate_quota();

    let file_a = ScTableFile::new(1);
    let file_b = ScTableFile::new(2);
    let file_c = ScTableFile::new(3);
    let raw_a = build_table(&[(b"a", b"1")]);
    let raw_b = build_table(&[(b"b", b"2")]);
    let raw_c = build_table(&[(b"c", b"3")]);
    mgr.add_cache(file_a, ScTableCache::from_raw(&raw_a, q_a).unwrap());
    mgr.add_cache(file_b, ScTableCache::from_raw(&raw_b, q_b).unwrap());
    // the hit makes file_a most recently used, so file_b is now the
    // least recently used and is the one the full index evicts
    assert!(mgr.get_cache(file_a).is_some());
    mgr.add_cache(file_c, ScTableCache::from_raw(&raw_c, q_c).unwrap());
    assert!(mgr.get_cache(file_a).is_some());
    assert!(mgr.get_cache(file_b).is_none());
    assert!(mgr.get_cache(file_c).is_some());
}

#[test]
fn probe_tables_first_hit_wins() {
    let mut mgr = TableCacheManager::new(4);
    let q1 = mgr.allocate_quota();
    let q2 = mgr.allocate_quota();
    let raw_new = build_table(&[(b"k", b"newer")]);
    let raw_old = build_table(&[(b"k", b"older"), (b"only-old", b"x")]);
    let newer = std::sync::Arc::new(ScTableCache::from_raw(&raw_new, q1).unwrap());
    let older = std::sync::Arc::new(ScTableCache::from_raw(&raw_old, q2).unwrap());
    let tables = vec![newer, older];
    assert_eq!(
        probe_tables::<DefaultComparator>(&tables, b"k"),
        Some(b"newer".to_vec())
    );
    assert_eq!(
        probe_tables::<DefaultComparator>(&tables, b"only-old"),
        Some(b"x".to_vec())
    );
    assert_eq!(probe_tables::<DefaultComparator>(&tables, b"absent"), None);
}

#[test]
fn quota_bound_and_release() {
    let mut mgr = TableCacheManager::new(2);
    assert_eq!(mgr.capacity(), 2);
    assert_eq!(mgr.live_quota(), 0);
    let q1 = mgr.allocate_quota();
    let q2 = mgr.allocate_quota();
    assert_eq!(mgr.live_quota(), 2);
    assert!(mgr.live_quota() <= mgr.capacity());
    mgr.on_cache_released(q1);
    assert_eq!(mgr.live_quota(), 1);
    mgr.on_cache_released(q2);
    assert_eq!(mgr.live_quota(), 0);
}

#[test]
fn cache_lookup_hit_and_miss() {
    let mut mgr = TableCacheManager::new(4);
    let quota = mgr.allocate_quota();
    let raw = build_table(&[(b"k", b"v")]);
    let table = ScTableCache::from_raw(&raw, quota).unwrap();
    let file = ScTableFile::new(7);
    mgr.add_cache(file, table);
    assert!(mgr.get_cache(file).is_some());
    assert!(mgr.get_cache(ScTableFile::new(8)).is_none());
}

#[test]
fn cache_eviction_keeps_readers_valid() {
    let mut mgr = TableCacheManager::new(2);
    let q_a = mgr.allocate_quota();
    let q_b = mgr.allocate_quota();
    // a second manager stands in for the engine instance whose flushes go on
    // arriving while this one's slots are all held
    let mut other = TableCacheManager::new(1);
    let q_c = other.allocate_quota();

    let raw_a = build_table(&[(b"alpha", b"1")]);
    let raw_b = build_table(&[(b"beta", b"2")]);
    let raw_c = build_table(&[(b"gamma", b"3")]);
    let file_a = ScTableFile::new(1);
    let file_b = ScTableFile::new(2);
    let file_c = ScTableFile::new(3);

    let held_a = mgr.add_cache(file_a, ScTableCache::from_raw(&raw_a, q_a).unwrap());
    mgr.add_cache(file_b, ScTableCache::from_raw(&raw_b, q_b).unwrap());
    // the index is at its bound; a third identity evicts the least recently
    // used entry, which is the one for file_a
    mgr.add_cache(file_c, ScTableCache::from_raw(&raw_c, q_c).unwrap());

    assert!(mgr.get_cache(file_a).is_none(), "evicted from the index");
    assert!(mgr.get_cache(file_b).is_some());
    assert!(mgr.get_cache(file_c).is_some());

    // the reference handed out before the eviction still reads correctly
    assert_eq!(held_a.catalog_len(), 1);
    assert_eq!(held_a.key_at(0), &b"alpha"[..]);
    assert_eq!(held_a.value_at(0), &b"1"[..]);
}
