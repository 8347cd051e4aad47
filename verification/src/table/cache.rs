use vstd::prelude::*;
use vstd::slice::{slice_subrange, slice_to_vec};
use vstd::string::StringExecFns;

use core::cmp::Ordering;

use crate::Comparator;
use crate::error::Error;
use crate::table::ScTableFile;
use crate::table::tablefmt::{
    ScTableCatalogItem, TABLE_HEAD_SIZE, TABLE_INDEX_SIZE, TABLE_MAGIC, TABLE_MAGIC_SIZE,
    TABLE_MIN_SIZE, decode_fixed32, fixed32_spec,
};

use std::sync::Arc;

verus! {

/// The IEEE CRC-32 checksum of a byte sequence. The checksum itself is an
/// outside computation; the core only compares it against the values a table
/// file declares.
pub uninterp spec fn crc32_ieee_of(data: Seq<u8>) -> u32;

/// Relies on crc::crc32::checksum_ieee: the IEEE CRC-32 of the given bytes,
/// a function of the input bytes alone.
#[verifier::external_body]
fn checksum_ieee(bytes: &[u8]) -> (r: u32)
    ensures
        r == crc32_ieee_of(bytes@),
{
    crc::crc32::checksum_ieee(bytes)
}

/// The catalog-region size a table file declares in its header.
pub open spec fn catalog_size_of(raw: Seq<u8>) -> int {
    fixed32_spec(raw.subrange(0, 4)) as int
}

/// The data-region size a table file declares in its header.
pub open spec fn data_size_of(raw: Seq<u8>) -> int {
    fixed32_spec(raw.subrange(4, 8)) as int
}

/// The catalog checksum a table file declares in its header.
pub open spec fn catalog_crc_of(raw: Seq<u8>) -> u32 {
    fixed32_spec(raw.subrange(8, 12))
}

/// The data checksum a table file declares in its header.
pub open spec fn data_crc_of(raw: Seq<u8>) -> u32 {
    fixed32_spec(raw.subrange(12, 16))
}

/// The catalog region: the bytes between the header and the data region.
pub open spec fn catalog_region_of(raw: Seq<u8>) -> Seq<u8> {
    raw.subrange(TABLE_HEAD_SIZE as int, TABLE_HEAD_SIZE + catalog_size_of(raw))
}

/// The data region: the bytes between the catalog region and the magic.
pub open spec fn data_region_of(raw: Seq<u8>) -> Seq<u8> {
    raw.subrange(
        TABLE_HEAD_SIZE + catalog_size_of(raw),
        TABLE_HEAD_SIZE + catalog_size_of(raw) + data_size_of(raw),
    )
}

/// The buffer ends with the fixed magic trailer.
pub open spec fn magic_ok(raw: Seq<u8>) -> bool {
    raw.subrange(raw.len() - TABLE_MAGIC_SIZE, raw.len() as int) == TABLE_MAGIC@
}

/// How many catalog items the declared catalog region holds.
pub open spec fn catalog_count_of(raw: Seq<u8>) -> int {
    catalog_size_of(raw) / (TABLE_INDEX_SIZE as int)
}

/// The `i`-th catalog item a table file describes.
pub open spec fn catalog_item_of(raw: Seq<u8>, i: int) -> ScTableCatalogItem {
    ScTableCatalogItem::deserialize_spec(
        catalog_region_of(raw).subrange(
            i * (TABLE_INDEX_SIZE as int),
            i * (TABLE_INDEX_SIZE as int) + (TABLE_INDEX_SIZE as int),
        ),
    )
}

/// A structurally sound table file: long enough, closed by the magic
/// trailer, sizes consistent, both regions matching their declared CRC-32,
/// and every catalog item pointing inside the data region.
pub open spec fn table_wf(raw: Seq<u8>) -> bool {
    &&& raw.len() >= TABLE_MIN_SIZE
    &&& magic_ok(raw)
    &&& catalog_size_of(raw) % (TABLE_INDEX_SIZE as int) == 0
    &&& catalog_size_of(raw) + data_size_of(raw) + TABLE_MIN_SIZE == raw.len()
    &&& crc32_ieee_of(catalog_region_of(raw)) == catalog_crc_of(raw)
    &&& crc32_ieee_of(data_region_of(raw)) == data_crc_of(raw)
    &&& forall|i: int|
        0 <= i < catalog_count_of(raw) ==> (#[trigger] catalog_item_of(raw, i)).in_data_region(
            data_size_of(raw),
        )
}

/// The reason reported for a corrupt buffer: the first structural check,
/// in validation order, that the buffer fails.
pub open spec fn corrupt_reason_of(raw: Seq<u8>) -> Seq<char> {
    if raw.len() < TABLE_MIN_SIZE {
        "too small to be a table file"@
    } else if !magic_ok(raw) {
        "incorrect table magic"@
    } else if catalog_size_of(raw) % (TABLE_INDEX_SIZE as int) != 0 {
        "catalog size should be multiplication of 16"@
    } else if catalog_size_of(raw) + data_size_of(raw) + TABLE_MIN_SIZE != raw.len() {
        "incorrect table size"@
    } else if crc32_ieee_of(catalog_region_of(raw)) != catalog_crc_of(raw) {
        "incorrect kv_catalog crc"@
    } else if crc32_ieee_of(data_region_of(raw)) != data_crc_of(raw) {
        "incorrect data crc"@
    } else {
        "incorrect key/value catalog data"@
    }
}

/// A scoped admission token: holding one stands for one occupied slot of the
/// cache manager's fixed capacity. Only `TableCacheManager::allocate_quota`
/// mints one, and `TableCacheManager::on_cache_released` takes it back.
#[derive(Debug)]
pub struct CacheQuota {
    marker: (),
}

impl CacheQuota {
    fn new() -> CacheQuota {
        CacheQuota { marker: () }
    }
}

/// The immutable, parsed form of one on-disk table: its catalog items and an
/// owned copy of its data region, plus the admission token that accounts for
/// its residency. Once constructed it never mutates, so shared references
/// stay valid however the cache index changes.
pub struct ScTableCache {
    catalog: Vec<ScTableCatalogItem>,
    data: Vec<u8>,
    quota: CacheQuota,
}

impl ScTableCache {
    /// The parsed catalog items.
    pub closed spec fn catalog_spec(&self) -> Seq<ScTableCatalogItem> {
        self.catalog@
    }

    /// The owned copy of the data region.
    pub closed spec fn data_spec(&self) -> Seq<u8> {
        self.data@
    }

    /// Every catalog item points inside the data region.
    pub open spec fn wf(&self) -> bool {
        forall|i: int|
            0 <= i < self.catalog_spec().len() ==> (#[trigger] self.catalog_spec()[i]).in_data_region(
                self.data_spec().len() as int,
            )
    }

    /// Parse and integrity-check one table file's raw bytes.
    ///
    /// Succeeds exactly on structurally sound buffers; any failure is a
    /// corruption error carrying the first violated check's reason, beside
    /// the admission token, handed back so the caller can release the slot
    /// a failed parse no longer occupies.
    pub fn from_raw(raw: &[u8], quota: CacheQuota) -> (r: Result<ScTableCache, (Error, CacheQuota)>)
        ensures
            r is Ok <==> table_wf(raw@),
            r matches Ok(t) ==> {
                &&& t.wf()
                &&& t.catalog_spec().len() == catalog_count_of(raw@)
                &&& forall|i: int|
                    0 <= i < catalog_count_of(raw@) ==> t.catalog_spec()[i] == catalog_item_of(
                        raw@,
                        i,
                    )
                &&& t.data_spec() == data_region_of(raw@)
            },
            r matches Err(e) ==> e.0.reason_spec() == corrupt_reason_of(raw@),
    {
        if raw.len() < TABLE_MIN_SIZE {
            return Err((Error::sc_table_corrupt(String::from_str("too small to be a table file")), quota));
        }

        let magic = slice_subrange(raw, raw.len() - TABLE_MAGIC_SIZE, raw.len());
        let mut j: usize = 0;
        while j < TABLE_MAGIC_SIZE
            invariant
                0 <= j <= TABLE_MAGIC_SIZE,
                raw@.len() >= TABLE_MIN_SIZE,
                magic@ == raw@.subrange(raw@.len() - TABLE_MAGIC_SIZE, raw@.len() as int),
                magic@.len() == TABLE_MAGIC_SIZE,
                forall|t: int| 0 <= t < j ==> magic@[t] == TABLE_MAGIC@[t],
            decreases TABLE_MAGIC_SIZE - j,
        {
            if magic[j] != TABLE_MAGIC[j] {
                proof {
                    assert(magic@[j as int] != TABLE_MAGIC@[j as int]);
                    assert(!magic_ok(raw@));
                }
                return Err((Error::sc_table_corrupt(String::from_str("incorrect table magic")), quota));
            }
            j = j + 1;
        }
        proof {
            assert(magic@ =~= TABLE_MAGIC@);
        }

        let kv_catalog_size = decode_fixed32(slice_subrange(raw, 0, 4)) as usize;
        let data_size = decode_fixed32(slice_subrange(raw, 4, 8)) as usize;

        if kv_catalog_size % TABLE_INDEX_SIZE != 0 {
            return Err((Error::sc_table_corrupt(String::from_str("catalog size should be multiplication of 16")), quota));
        }

        if kv_catalog_size as u64 + data_size as u64 + TABLE_MIN_SIZE as u64 != raw.len() as u64 {
            return Err((Error::sc_table_corrupt(String::from_str("incorrect table size")), quota));
        }

        let kv_catalog_crc = decode_fixed32(slice_subrange(raw, 8, 12));
        let data_crc = decode_fixed32(slice_subrange(raw, 12, 16));

        let kv_catalog = slice_subrange(raw, TABLE_HEAD_SIZE, TABLE_HEAD_SIZE + kv_catalog_size);
        let data = slice_subrange(
            raw,
            TABLE_HEAD_SIZE + kv_catalog_size,
            TABLE_HEAD_SIZE + kv_catalog_size + data_size,
        );

        if checksum_ieee(kv_catalog) != kv_catalog_crc {
            return Err((Error::sc_table_corrupt(String::from_str("incorrect kv_catalog crc")), quota));
        }

        if checksum_ieee(data) != data_crc {
            return Err((Error::sc_table_corrupt(String::from_str("incorrect data crc")), quota));
        }

        let n = kv_catalog_size / TABLE_INDEX_SIZE;
        proof {
            assert(n * 16 == kv_catalog_size) by (nonlinear_arith)
                requires
                    n == kv_catalog_size / 16,
                    kv_catalog_size % 16 == 0,
                    kv_catalog_size >= 0,
            ;
        }
        let mut catalog_item: Vec<ScTableCatalogItem> = Vec::new();
        let mut i: usize = 0;
        while i < n
            invariant
                0 <= i <= n,
                n * 16 == kv_catalog_size,
                n == catalog_count_of(raw@),
                raw@.len() >= TABLE_MIN_SIZE,
                magic_ok(raw@),
                kv_catalog_size == catalog_size_of(raw@),
                data_size == data_size_of(raw@),
                kv_catalog_size % 16 == 0,
                kv_catalog_size + data_size + TABLE_MIN_SIZE == raw@.len(),
                crc32_ieee_of(catalog_region_of(raw@)) == catalog_crc_of(raw@),
                crc32_ieee_of(data_region_of(raw@)) == data_crc_of(raw@),
                kv_catalog@ == catalog_region_of(raw@),
                data@ == data_region_of(raw@),
                data@.len() == data_size,
                catalog_item@.len() == i,
                forall|t: int| 0 <= t < i ==> catalog_item@[t] == catalog_item_of(raw@, t),
                forall|t: int|
                    0 <= t < i ==> (#[trigger] catalog_item_of(raw@, t)).in_data_region(
                        data_size as int,
                    ),
            decreases n - i,
        {
            let base = i * TABLE_INDEX_SIZE;
            let index = ScTableCatalogItem::deserialize(
                slice_subrange(kv_catalog, base, base + TABLE_INDEX_SIZE),
            );
            proof {
                assert(index == catalog_item_of(raw@, i as int));
            }
            if index.key_off as u64 + index.key_len as u64 > data.len() as u64
                || index.value_off as u64 + index.value_len as u64 > data.len() as u64 {
                proof {
                    assert(!(#[trigger] catalog_item_of(raw@, i as int)).in_data_region(
                        data_size as int,
                    ));
                    assert(!table_wf(raw@));
                }
                return Err((Error::sc_table_corrupt(String::from_str("incorrect key/value catalog data")), quota));
            }
            catalog_item.push(index);
            i = i + 1;
        }

        Ok(ScTableCache { catalog: catalog_item, data: slice_to_vec(data), quota })
    }

    /// Tear the parsed table down, yielding the admission token that has
    /// accounted for its residency, so the embedding layer can return the
    /// slot through `TableCacheManager::on_cache_released` once the last
    /// holder lets the table go.
    pub fn into_quota(self) -> CacheQuota {
        self.quota
    }

    /// How many entries this table holds.
    pub fn catalog_len(&self) -> (r: usize)
        ensures
            r == self.catalog_spec().len(),
    {
        self.catalog.len()
    }

    /// The `i`-th catalog item.
    pub fn catalog_item(&self, i: usize) -> (r: ScTableCatalogItem)
        requires
            i < self.catalog_spec().len(),
        ensures
            r == self.catalog_spec()[i as int],
    {
        self.catalog[i]
    }

    /// The raw key bytes of the `i`-th entry.
    pub fn key_at(&self, i: usize) -> (r: &[u8])
        requires
            self.wf(),
            i < self.catalog_spec().len(),
        ensures
            r@ == self.data_spec().subrange(
                self.catalog_spec()[i as int].key_off as int,
                self.catalog_spec()[i as int].key_off + self.catalog_spec()[i as int].key_len,
            ),
    {
        let item = self.catalog[i];
        let data_len = self.data.len();
        proof {
            assert(item == self.catalog_spec()[i as int]);
            assert(self.catalog_spec()[i as int].in_data_region(self.data_spec().len() as int));
            assert(item.key_off + item.key_len <= data_len);
            assert(item.value_off + item.value_len <= data_len);
        }
        slice_subrange(
            self.data.as_slice(),
            item.key_off as usize,
            item.key_off as usize + item.key_len as usize,
        )
    }

    /// The raw value bytes of the `i`-th entry.
    pub fn value_at(&self, i: usize) -> (r: &[u8])
        requires
            self.wf(),
            i < self.catalog_spec().len(),
        ensures
            r@ == self.data_spec().subrange(
                self.catalog_spec()[i as int].value_off as int,
                self.catalog_spec()[i as int].value_off + self.catalog_spec()[i as int].value_len,
            ),
    {
        let item = self.catalog[i];
        let data_len = self.data.len();
        proof {
            assert(item == self.catalog_spec()[i as int]);
            assert(self.catalog_spec()[i as int].in_data_region(self.data_spec().len() as int));
            assert(item.key_off + item.key_len <= data_len);
            assert(item.value_off + item.value_len <= data_len);
        }
        slice_subrange(
            self.data.as_slice(),
            item.value_off as usize,
            item.value_off as usize + item.value_len as usize,
        )
    }

    /// Probe the catalog for `key`: the value bytes of the first entry whose
    /// key compares `Equal` under the comparator. The read path's descent
    /// into on-disk tables lands here once the cache manager has resolved a
    /// table handle to this parsed form.
    #[verifier::loop_isolation(false)]
    pub fn lookup<Comp: Comparator>(&self, key: &[u8]) -> (r: Option<&[u8]>)
        requires
            self.wf(),
        ensures
            r matches Some(v) ==> first_match::<Comp>(
                self.catalog_spec(),
                self.data_spec(),
                key@,
            ) == Some(v@),
            r is None ==> first_match::<Comp>(self.catalog_spec(), self.data_spec(), key@)
                is None,
    {
        let ghost cat = self.catalog_spec();
        let ghost data = self.data_spec();
        let n = self.catalog.len();
        let mut i: usize = 0;
        proof {
            assert(cat.skip(0) =~= cat);
        }
        while i < n
            invariant
                i <= n,
                first_match::<Comp>(cat, data, key@) == first_match::<Comp>(
                    cat.skip(i as int),
                    data,
                    key@,
                ),
            decreases n - i,
        {
            proof {
                assert(cat.skip(i as int)[0] == cat[i as int]);
            }
            let entry_key = self.key_at(i);
            if let Ordering::Equal = Comp::compare(entry_key, key) {
                return Some(self.value_at(i));
            }
            proof {
                assert(cat.skip(i as int).drop_first() =~= cat.skip(i as int + 1));
            }
            i = i + 1;
        }
        proof {
            assert(cat.skip(n as int) =~= Seq::<ScTableCatalogItem>::empty());
        }
        None
    }
}

/// The value bytes of the first catalog entry whose key bytes compare
/// `Equal` to `key` under the comparator.
pub open spec fn first_match<Comp: Comparator>(
    catalog: Seq<ScTableCatalogItem>,
    data: Seq<u8>,
    key: Seq<u8>,
) -> Option<Seq<u8>>
    decreases catalog.len(),
{
    if catalog.len() == 0 {
        None
    } else if Comp::cmp_spec(
        data.subrange(catalog[0].key_off as int, catalog[0].key_off + catalog[0].key_len),
        key,
    ) == Ordering::Equal {
        Some(data.subrange(catalog[0].value_off as int, catalog[0].value_off + catalog[0].value_len))
    } else {
        first_match::<Comp>(catalog.drop_first(), data, key)
    }
}

/// The first hit over a run of parsed tables, probed in the given order:
/// what the read path's descent finds once the cache manager has resolved
/// the handles of every level, level 0 first and the newest table first
/// within a level.
pub open spec fn tables_probe_spec<Comp: Comparator>(
    ts: Seq<Arc<ScTableCache>>,
    key: Seq<u8>,
) -> Option<Seq<u8>>
    decreases ts.len(),
{
    if ts.len() == 0 {
        None
    } else {
        match first_match::<Comp>(ts[0].catalog_spec(), ts[0].data_spec(), key) {
            Some(v) => Some(v),
            None => tables_probe_spec::<Comp>(ts.drop_first(), key),
        }
    }
}

/// Probe a run of parsed tables in order; the first table holding the key
/// wins. The caller lists the tables in descent order — level 0 first,
/// newest first within a level — and this fixes that the first hit is the
/// answer.
#[verifier::loop_isolation(false)]
pub fn probe_tables<Comp: Comparator>(tables: &Vec<Arc<ScTableCache>>, key: &[u8]) -> (r: Option<
    Vec<u8>,
>)
    requires
        forall|i: int| 0 <= i < tables@.len() ==> (#[trigger] tables@[i]).wf(),
    ensures
        r matches Some(v) ==> tables_probe_spec::<Comp>(tables@, key@) == Some(v@),
        r is None ==> tables_probe_spec::<Comp>(tables@, key@) is None,
{
    let ghost ts = tables@;
    let n = tables.len();
    let mut i: usize = 0;
    proof {
        assert(ts.skip(0) =~= ts);
    }
    while i < n
        invariant
            i <= n,
            tables_probe_spec::<Comp>(ts, key@) == tables_probe_spec::<Comp>(
                ts.skip(i as int),
                key@,
            ),
        decreases n - i,
    {
        proof {
            assert(ts.skip(i as int)[0] == ts[i as int]);
        }
        if let Some(v) = tables[i].lookup::<Comp>(key) {
            return Some(slice_to_vec(v));
        }
        proof {
            assert(ts.skip(i as int).drop_first() =~= ts.skip(i as int + 1));
        }
        i = i + 1;
    }
    proof {
        assert(ts.skip(n as int) =~= Seq::<Arc<ScTableCache>>::empty());
    }
    None
}

/// What the LRU index currently maps each table-file identity to.
pub uninterp spec fn lru_contents(c: lru::LruCache<ScTableFile, Arc<ScTableCache>>) -> Map<
    ScTableFile,
    Arc<ScTableCache>,
>;

/// The entry-count bound the LRU index was created with.
pub uninterp spec fn lru_cap_of(c: lru::LruCache<ScTableFile, Arc<ScTableCache>>) -> int;

/// The recency order of the LRU index: the resident file identities from
/// least recently used (first) to most recently used (last).
pub uninterp spec fn lru_recency(c: lru::LruCache<ScTableFile, Arc<ScTableCache>>) -> Seq<
    ScTableFile,
>;

/// The sequence with every occurrence of `k` taken out.
pub open spec fn seq_remove_key(s: Seq<ScTableFile>, k: ScTableFile) -> Seq<ScTableFile> {
    s.filter(|x: ScTableFile| x != k)
}

/// The two views of the index agree: the recency order lists exactly the
/// resident identities, each once.
pub open spec fn lru_index_consistent(c: lru::LruCache<ScTableFile, Arc<ScTableCache>>) -> bool {
    &&& forall|k: ScTableFile|
        lru_contents(c).dom().contains(k) <==> #[trigger] lru_recency(c).contains(k)
    &&& forall|i: int, j: int|
        0 <= i < j < lru_recency(c).len() ==> lru_recency(c)[i] != lru_recency(c)[j]
    &&& lru_recency(c).len() == lru_contents(c).dom().len()
}

#[verifier::external_type_specification]
#[verifier::external_body]
#[verifier::reject_recursive_types(K)]
#[verifier::reject_recursive_types(V)]
#[verifier::reject_recursive_types(S)]
pub struct ExLruCache<K, V, S>(lru::LruCache<K, V, S>);

/// Relies on lru::LruCache::new: an empty cache holding at most `cap`
/// entries. A zero capacity is kept out: the crate's eviction path assumes
/// at least one resident entry fits.
#[verifier::external_body]
fn lru_new(cap: usize) -> (c: lru::LruCache<ScTableFile, Arc<ScTableCache>>)
    requires
        cap >= 1,
    ensures
        lru_contents(c).dom() == Set::<ScTableFile>::empty(),
        lru_recency(c) == Seq::<ScTableFile>::empty(),
        lru_cap_of(c) == cap,
        lru_index_consistent(c),
{
    lru::LruCache::new(cap)
}

/// Relies on lru::LruCache::put: inserts or updates the mapping under `k`
/// and makes `k` the most recently used entry; when a new key arrives with
/// the index full, exactly the least-recently-used entry — the head of the
/// recency order — is dropped from the index.
#[verifier::external_body]
fn lru_put(
    c: &mut lru::LruCache<ScTableFile, Arc<ScTableCache>>,
    k: ScTableFile,
    v: &Arc<ScTableCache>,
)
    requires
        lru_cap_of(*old(c)) >= 1,
    ensures
        lru_cap_of(*final(c)) == lru_cap_of(*old(c)),
        lru_index_consistent(*final(c)),
        lru_contents(*final(c)).contains_pair(k, *v),
        lru_contents(*final(c)).dom().subset_of(lru_contents(*old(c)).dom().insert(k)),
        forall|k2: ScTableFile|
            #[trigger] lru_contents(*final(c)).dom().contains(k2) && k2 != k
                ==> lru_contents(*final(c))[k2] == lru_contents(*old(c))[k2],
        (lru_contents(*old(c)).dom().contains(k) || lru_contents(*old(c)).dom().len() < lru_cap_of(
            *old(c),
        )) ==> lru_contents(*final(c)).dom() == lru_contents(*old(c)).dom().insert(k)
            && lru_recency(*final(c)) == seq_remove_key(lru_recency(*old(c)), k).push(k),
        !(lru_contents(*old(c)).dom().contains(k) || lru_contents(*old(c)).dom().len()
            < lru_cap_of(*old(c))) ==> lru_recency(*old(c)).len() >= 1 && lru_contents(
            *final(c),
        ).dom() == lru_contents(*old(c)).dom().remove(lru_recency(*old(c))[0]).insert(k)
            && lru_recency(*final(c)) == lru_recency(*old(c)).drop_first().push(k),
        lru_contents(*final(c)).dom().len() <= lru_cap_of(*old(c)),
        lru_contents(*final(c)).dom().len() >= 1,
{
    c.put(k, v.clone());
}

/// Relies on lru::LruCache::get: looks the key up and makes a hit the most
/// recently used entry; the mapping itself does not change.
#[verifier::external_body]
fn lru_get(
    c: &mut lru::LruCache<ScTableFile, Arc<ScTableCache>>,
    k: &ScTableFile,
) -> (r: Option<Arc<ScTableCache>>)
    ensures
        lru_cap_of(*final(c)) == lru_cap_of(*old(c)),
        lru_contents(*final(c)) == lru_contents(*old(c)),
        lru_index_consistent(*old(c)) ==> lru_index_consistent(*final(c)),
        lru_contents(*old(c)).dom().contains(*k) ==> lru_recency(*final(c)) == seq_remove_key(
            lru_recency(*old(c)),
            *k,
        ).push(*k),
        !lru_contents(*old(c)).dom().contains(*k) ==> lru_recency(*final(c)) == lru_recency(
            *old(c),
        ),
        r is Some <==> lru_contents(*old(c)).dom().contains(*k),
        r matches Some(a) ==> lru_contents(*old(c)).contains_pair(*k, a),
{
    c.get(k).cloned()
}

/// The process-wide bounded index of parsed on-disk tables: an LRU map from
/// file identity to a shared parsed table, plus a count of admitted slots
/// bounded by a fixed capacity.
///
/// In the concurrent engine the index sits behind a mutex and the slot count
/// is atomic; the embedding layer provides that exclusion, so every method
/// here takes the manager exclusively.
pub struct TableCacheManager {
    lru: lru::LruCache<ScTableFile, Arc<ScTableCache>>,
    cache_count: usize,
    current_cache_count: usize,
}

impl TableCacheManager {
    /// The fixed admission capacity.
    pub closed spec fn capacity_spec(&self) -> int {
        self.cache_count as int
    }

    /// How many admission slots are currently held by live quota tokens.
    pub closed spec fn live_quota_spec(&self) -> int {
        self.current_cache_count as int
    }

    /// What the LRU index currently holds.
    pub closed spec fn contents_spec(&self) -> Map<ScTableFile, Arc<ScTableCache>> {
        lru_contents(self.lru)
    }

    /// The index's recency order: resident identities from least recently
    /// used (first, the next to be evicted) to most recently used (last).
    pub closed spec fn recency_spec(&self) -> Seq<ScTableFile> {
        lru_recency(self.lru)
    }

    /// The manager's invariant: the admitted-slot count never exceeds the
    /// capacity, and the index is bounded by the same capacity.
    pub closed spec fn wf(&self) -> bool {
        &&& self.cache_count >= 1
        &&& self.current_cache_count <= self.cache_count
        &&& lru_cap_of(self.lru) == self.cache_count as int
        &&& lru_contents(self.lru).dom().len() <= self.cache_count as int
        &&& lru_index_consistent(self.lru)
    }

    /// The fixed admission capacity.
    pub fn capacity(&self) -> (r: usize)
        ensures
            r == self.capacity_spec(),
    {
        self.cache_count
    }

    /// How many admission slots live quota tokens currently hold.
    pub fn live_quota(&self) -> (r: usize)
        ensures
            r == self.live_quota_spec(),
    {
        self.current_cache_count
    }

    /// The quota bound: a well-formed manager never has more live admission
    /// slots than its fixed capacity. Every method of the manager requires
    /// and re-establishes `wf`, so the bound holds after any sequence of
    /// operations.
    pub proof fn lemma_quota_bound(&self)
        requires
            self.wf(),
        ensures
            self.live_quota_spec() <= self.capacity_spec(),
    {
    }

    /// A manager with the given capacity, nothing resident, no slot taken.
    pub fn new(cache_count: usize) -> (r: TableCacheManager)
        requires
            cache_count >= 1,
        ensures
            r.wf(),
            r.capacity_spec() == cache_count,
            r.live_quota_spec() == 0,
            r.contents_spec() == Map::<ScTableFile, Arc<ScTableCache>>::empty(),
            r.recency_spec() == Seq::<ScTableFile>::empty(),
    {
        let r = TableCacheManager {
            lru: lru_new(cache_count),
            cache_count,
            current_cache_count: 0,
        };
        proof {
            broadcast use vstd::set::axiom_set_empty_len;

            assert(r.contents_spec() =~= Map::<ScTableFile, Arc<ScTableCache>>::empty());
        }
        r
    }

    /// Reserve one admission slot and mint its guard.
    ///
    /// In the concurrent engine a caller blocks here until a slot frees;
    /// under exclusive ownership nothing could free one meanwhile, so
    /// admission is a precondition instead of a wait.
    pub fn allocate_quota(&mut self) -> (r: CacheQuota)
        requires
            old(self).wf(),
            old(self).live_quota_spec() < old(self).capacity_spec(),
        ensures
            final(self).wf(),
            final(self).live_quota_spec() == old(self).live_quota_spec() + 1,
            final(self).live_quota_spec() <= final(self).capacity_spec(),
            final(self).capacity_spec() == old(self).capacity_spec(),
            final(self).contents_spec() == old(self).contents_spec(),
            final(self).recency_spec() == old(self).recency_spec(),
    {
        self.current_cache_count = self.current_cache_count + 1;
        CacheQuota::new()
    }

    /// Hand one admission slot back, consuming the guard minted for it.
    /// The live count strictly decreases by one.
    pub fn on_cache_released(&mut self, _quota: CacheQuota)
        requires
            old(self).wf(),
            old(self).live_quota_spec() >= 1,
        ensures
            final(self).wf(),
            final(self).live_quota_spec() == old(self).live_quota_spec() - 1,
            final(self).capacity_spec() == old(self).capacity_spec(),
            final(self).contents_spec() == old(self).contents_spec(),
            final(self).recency_spec() == old(self).recency_spec(),
    {
        self.current_cache_count = self.current_cache_count - 1;
    }

    /// Insert a parsed table under its file identity and share it.
    ///
    /// The returned reference is the caller's handle; eviction of the index
    /// entry later never invalidates it. The inserted identity becomes the
    /// most recently used; if a new identity arrives with the index full,
    /// exactly the least-recently-used entry leaves the index (only the
    /// index: any outstanding references to it stay usable).
    pub fn add_cache(&mut self, table_file: ScTableFile, table_cache: ScTableCache) -> (r: Arc<
        ScTableCache,
    >)
        requires
            old(self).wf(),
        ensures
            final(self).wf(),
            r == table_cache,
            final(self).capacity_spec() == old(self).capacity_spec(),
            final(self).live_quota_spec() == old(self).live_quota_spec(),
            final(self).contents_spec().contains_pair(table_file, r),
            final(self).contents_spec().dom().subset_of(
                old(self).contents_spec().dom().insert(table_file),
            ),
            forall|k2: ScTableFile|
                #[trigger] final(self).contents_spec().dom().contains(k2) && k2 != table_file
                    ==> final(self).contents_spec()[k2] == old(self).contents_spec()[k2],
            (old(self).contents_spec().dom().contains(table_file)
                || old(self).contents_spec().dom().len() < old(self).capacity_spec())
                ==> final(self).contents_spec().dom()
                    == old(self).contents_spec().dom().insert(table_file) && final(self).recency_spec() == seq_remove_key(old(self).recency_spec(), table_file).push(
                table_file,
            ),
            !(old(self).contents_spec().dom().contains(table_file)
                || old(self).contents_spec().dom().len() < old(self).capacity_spec())
                ==> old(self).recency_spec().len() >= 1 && final(self).contents_spec().dom()
                    == old(self).contents_spec().dom().remove(old(self).recency_spec()[0]).insert(
                table_file,
            ) && final(self).recency_spec() == old(self).recency_spec().drop_first().push(
                table_file,
            ),
    {
        let ret = Arc::new(table_cache);
        lru_put(&mut self.lru, table_file, &ret);
        ret
    }

    /// Look a parsed table up by file identity. A hit becomes the most
    /// recently used entry — of the identities resident now it is then the
    /// last in line for eviction. A miss means the caller must read and
    /// parse the file, then `add_cache` it.
    pub fn get_cache(&mut self, table_file: ScTableFile) -> (r: Option<Arc<ScTableCache>>)
        requires
            old(self).wf(),
        ensures
            final(self).wf(),
            final(self).capacity_spec() == old(self).capacity_spec(),
            final(self).live_quota_spec() == old(self).live_quota_spec(),
            final(self).contents_spec() == old(self).contents_spec(),
            old(self).contents_spec().dom().contains(table_file) ==> final(self).recency_spec()
                == seq_remove_key(old(self).recency_spec(), table_file).push(table_file),
            !old(self).contents_spec().dom().contains(table_file) ==> final(self).recency_spec()
                == old(self).recency_spec(),
            r is Some <==> old(self).contents_spec().dom().contains(table_file),
            r matches Some(a) ==> old(self).contents_spec().contains_pair(table_file, a),
    {
        lru_get(&mut self.lru, &table_file)
    }
}

} // verus!
