use vstd::prelude::*;
use vstd::slice::slice_subrange;

verus! {

/// Size in bytes of the fixed table-file header: catalog size, data size,
/// catalog CRC-32 and data CRC-32, each a little-endian 32-bit integer.
pub const TABLE_HEAD_SIZE: usize = 16;

/// Size in bytes of one catalog item on disk: key offset, key length,
/// value offset and value length, each a little-endian 32-bit integer.
pub const TABLE_INDEX_SIZE: usize = 16;

/// Catalog overhead charged to each entry in a memtable footprint estimate;
/// it mirrors the on-disk catalog item size.
pub const TABLE_CATALOG_ITEM_SIZE: usize = 16;

/// Length in bytes of the magic marker closing every table file.
pub const TABLE_MAGIC_SIZE: usize = 8;

/// The fixed magic byte pattern at the very end of every table file.
pub const TABLE_MAGIC: [u8; 8] = [0x73, 0x63, 0x74, 0x62, 0x6c, 0x6d, 0x67, 0x63];

/// Smallest possible table file: the fixed header plus the magic trailer.
pub const TABLE_MIN_SIZE: usize = 24;

/// The unsigned 32-bit integer that four bytes encode little-endian.
pub open spec fn fixed32_spec(b: Seq<u8>) -> u32
    recommends
        b.len() == 4,
{
    (b[0] + b[1] * 0x100 + b[2] * 0x10000 + b[3] * 0x1000000) as u32
}

/// Decode a fixed-width little-endian 32-bit integer from four raw bytes.
pub fn decode_fixed32(bytes: &[u8]) -> (r: u32)
    requires
        bytes@.len() == 4,
    ensures
        r == fixed32_spec(bytes@),
{
    let b0 = bytes[0] as u32;
    let b1 = bytes[1] as u32;
    let b2 = bytes[2] as u32;
    let b3 = bytes[3] as u32;
    b0 + b1 * 0x100 + b2 * 0x10000 + b3 * 0x1000000
}

/// One parsed catalog item: where one entry's key and value bytes lie in the
/// data region of a table file.
#[derive(Clone, Copy, PartialEq, Eq, Structural)]
pub struct ScTableCatalogItem {
    pub key_off: u32,
    pub key_len: u32,
    pub value_off: u32,
    pub value_len: u32,
}

impl ScTableCatalogItem {
    /// The item that sixteen raw catalog bytes describe.
    pub open spec fn deserialize_spec(b: Seq<u8>) -> ScTableCatalogItem
        recommends
            b.len() == TABLE_INDEX_SIZE,
    {
        ScTableCatalogItem {
            key_off: fixed32_spec(b.subrange(0, 4)),
            key_len: fixed32_spec(b.subrange(4, 8)),
            value_off: fixed32_spec(b.subrange(8, 12)),
            value_len: fixed32_spec(b.subrange(12, 16)),
        }
    }

    /// Both the key range and the value range of this item lie fully inside
    /// a data region of `data_len` bytes.
    pub open spec fn in_data_region(self, data_len: int) -> bool {
        &&& self.key_off + self.key_len <= data_len
        &&& self.value_off + self.value_len <= data_len
    }

    /// Parse one catalog item from its sixteen raw bytes.
    pub fn deserialize(bytes: &[u8]) -> (r: ScTableCatalogItem)
        requires
            bytes@.len() == TABLE_INDEX_SIZE,
        ensures
            r == Self::deserialize_spec(bytes@),
    {
        ScTableCatalogItem {
            key_off: decode_fixed32(slice_subrange(bytes, 0, 4)),
            key_len: decode_fixed32(slice_subrange(bytes, 4, 8)),
            value_off: decode_fixed32(slice_subrange(bytes, 8, 12)),
            value_len: decode_fixed32(slice_subrange(bytes, 12, 16)),
        }
    }
}

} // verus!
