//! A look at the naming tables of a font resource before it is parsed: the
//! full name of a font is decoded as big-endian UTF-16 while the font
//! loads, and only well-formed UTF-16 can be decoded.

use vstd::prelude::*;

verus! {

/// The tag of a naming table, `name`.
pub const NAME_TAG: u64 = 0x6e61_6d65;

/// The magic number of a font collection, `ttcf`.
pub const COLLECTION_MAGIC: u64 = 0x7474_6366;

/// The big-endian 16-bit number at `at`.
pub open spec fn be16(data: Seq<u8>, at: int) -> int {
    data[at] * 256 + data[at + 1]
}

/// The big-endian 32-bit number at `at`.
pub open spec fn be32(data: Seq<u8>, at: int) -> int {
    be16(data, at) * 65536 + be16(data, at + 2)
}

/// Whether the bytes from `from` up to `to` are well-formed big-endian
/// UTF-16: whole 16-bit units, every high surrogate followed by a low one,
/// and no low surrogate on its own.
pub open spec fn is_utf16(data: Seq<u8>, from: int, to: int) -> bool
    decreases to - from,
{
    if from >= to {
        true
    } else if to - from < 2 {
        false
    } else {
        let unit = be16(data, from);
        if unit < 0xd800 || unit > 0xdfff {
            is_utf16(data, from + 2, to)
        } else {
            &&& unit <= 0xdbff
            &&& to - from >= 4
            &&& 0xdc00 <= be16(data, from + 2) <= 0xdfff
            &&& is_utf16(data, from + 4, to)
        }
    }
}

/// Whether a name of this platform and encoding is held as UTF-16.
pub open spec fn is_unicode_name(platform: int, encoding: int) -> bool {
    platform == 0 || (platform == 3 && (encoding == 0 || encoding == 1))
}

/// Whether name record `index` can be decoded: if it is a full name (id 4)
/// in a Unicode encoding and its string lies inside the table, the string
/// is well-formed UTF-16. The records start at `records`, the strings at
/// `storage`, and the table ends at `end`.
pub open spec fn name_record_is_sound(
    data: Seq<u8>,
    records: int,
    storage: int,
    end: int,
    index: int,
) -> bool {
    let at = records + 12 * index;
    let from = storage + be16(data, at + 10);
    let to = from + be16(data, at + 8);
    (be16(data, at + 6) == 4 && is_unicode_name(be16(data, at), be16(data, at + 2)) && to <= end)
        ==> is_utf16(data, from, to)
}

/// Whether the first `count` name records can be decoded.
pub open spec fn name_records_are_sound(
    data: Seq<u8>,
    records: int,
    storage: int,
    end: int,
    count: int,
) -> bool
    decreases count,
{
    count <= 0 || (name_records_are_sound(data, records, storage, end, count - 1)
        && name_record_is_sound(data, records, storage, end, count - 1))
}

/// Where the name records of the naming table from `start` up to `end`
/// begin, if the table has a header that is understood.
pub open spec fn name_records_at(data: Seq<u8>, start: int, end: int) -> Option<int> {
    if end - start < 6 {
        None
    } else if be16(data, start) == 0 {
        Some(start + 6)
    } else if be16(data, start) == 1 && end - start >= 8 && be16(data, start + 6) * 4 < 65536 {
        Some(start + 8 + 4 * be16(data, start + 6))
    } else {
        None
    }
}

/// Whether every full name in the naming table from `start` up to `end` can
/// be decoded. A table that is too short for its header or its records
/// holds no names.
pub open spec fn name_table_is_sound(data: Seq<u8>, start: int, end: int) -> bool {
    match name_records_at(data, start, end) {
        None => true,
        Some(records) => {
            let count = be16(data, start + 2);
            let after = records + 12 * count;
            let storage = if after < start + be16(data, start + 4) {
                start + be16(data, start + 4)
            } else {
                after
            };
            after > end || storage > end || name_records_are_sound(
                data,
                records,
                storage,
                end,
                count,
            )
        },
    }
}

/// Whether table `index` of the directory at `directory` is no naming table
/// that lies inside the data, or is one whose full names can be decoded.
pub open spec fn table_is_sound(data: Seq<u8>, directory: int, index: int) -> bool {
    let at = directory + 12 + 16 * index;
    let start = be32(data, at + 8);
    let end = start + be32(data, at + 12);
    (be32(data, at) == NAME_TAG && end <= data.len()) ==> name_table_is_sound(data, start, end)
}

/// Whether the first `count` tables of the directory are sound.
pub open spec fn tables_are_sound(data: Seq<u8>, directory: int, count: int) -> bool
    decreases count,
{
    count <= 0 || (tables_are_sound(data, directory, count - 1) && table_is_sound(
        data,
        directory,
        count - 1,
    ))
}

/// Where the table directory of the font begins: at the start of the data,
/// or, in a font collection, where the collection says its first font
/// begins.
pub open spec fn directory_at(data: Seq<u8>) -> Option<int> {
    if data.len() < 4 {
        None
    } else if be32(data, 0) == COLLECTION_MAGIC {
        if data.len() >= 16 && be32(data, 12) <= data.len() {
            Some(be32(data, 12))
        } else {
            None
        }
    } else {
        Some(0)
    }
}

/// Whether every full name that the font resource holds can be decoded:
/// each naming table that its directory names is sound. Data without a
/// whole directory holds no names.
pub open spec fn names_are_decodable(data: Seq<u8>) -> bool {
    match directory_at(data) {
        None => true,
        Some(directory) => {
            let count = be16(data, directory + 4);
            directory + 6 > data.len() || directory + 12 + 16 * count > data.len()
                || tables_are_sound(data, directory, count)
        },
    }
}

fn read16(data: &[u8], at: u64) -> (value: u64)
    requires
        at + 2 <= data@.len(),
    ensures
        value == be16(data@, at as int),
        value < 65536,
{
    let len = data.len();
    (data[at as usize] as u64) * 256 + data[(at + 1) as usize] as u64
}

fn read32(data: &[u8], at: u64) -> (value: u64)
    requires
        at + 4 <= data@.len(),
    ensures
        value == be32(data@, at as int),
        value < 0x1_0000_0000,
{
    let len = data.len();
    read16(data, at) * 65536 + read16(data, at + 2)
}

/// Whether the bytes from `from` up to `to` are well-formed big-endian
/// UTF-16.
pub fn check_utf16(data: &[u8], from: u64, to: u64) -> (well_formed: bool)
    requires
        from <= to <= data@.len(),
    ensures
        well_formed == is_utf16(data@, from as int, to as int),
{
    let mut at = from;
    while at < to
        invariant
            from <= at <= to <= data@.len(),
            is_utf16(data@, from as int, to as int) == is_utf16(data@, at as int, to as int),
        decreases to - at,
    {
        if to - at < 2 {
            return false;
        }
        let unit = read16(data, at);
        if unit < 0xd800 || unit > 0xdfff {
            at += 2;
        } else {
            if unit > 0xdbff || to - at < 4 {
                return false;
            }
            let low = read16(data, at + 2);
            if low < 0xdc00 || low > 0xdfff {
                return false;
            }
            at += 4;
        }
    }
    true
}

fn check_name_table(data: &[u8], start: u64, end: u64) -> (sound: bool)
    requires
        start <= end <= data@.len(),
        end < 0x2_0000_0000,
    ensures
        sound == name_table_is_sound(data@, start as int, end as int),
{
    if end - start < 6 {
        return true;
    }
    let version = read16(data, start);
    let count = read16(data, start + 2);
    let storage_offset = read16(data, start + 4);
    let records = if version == 0 {
        start + 6
    } else if version == 1 && end - start >= 8 {
        let tags = read16(data, start + 6);
        if tags * 4 >= 65536 {
            return true;
        }
        start + 8 + 4 * tags
    } else {
        return true;
    };
    let after = records + 12 * count;
    let storage = if after < start + storage_offset {
        start + storage_offset
    } else {
        after
    };
    if after > end || storage > end {
        return true;
    }
    assert(name_records_at(data@, start as int, end as int) == Some(records as int));
    let mut index: u64 = 0;
    while index < count
        invariant
            index <= count < 65536,
            start <= records,
            records + 12 * count == after <= storage <= end <= data@.len(),
            end < 0x2_0000_0000,
            name_records_are_sound(data@, records as int, storage as int, end as int, index as int),
            name_table_is_sound(data@, start as int, end as int) == name_records_are_sound(
                data@,
                records as int,
                storage as int,
                end as int,
                count as int,
            ),
        decreases count - index,
    {
        let at = records + 12 * index;
        let platform = read16(data, at);
        let encoding = read16(data, at + 2);
        let name_id = read16(data, at + 6);
        let length = read16(data, at + 8);
        let from = storage + read16(data, at + 10);
        let to = from + length;
        if name_id == 4 && (platform == 0 || (platform == 3 && (encoding == 0 || encoding == 1)))
            && to <= end {
            if !check_utf16(data, from, to) {
                assert(!name_record_is_sound(
                    data@,
                    records as int,
                    storage as int,
                    end as int,
                    index as int,
                ));
                proof {
                    lemma_unsound_record(
                        data@,
                        records as int,
                        storage as int,
                        end as int,
                        index as int,
                        count as int,
                    );
                }
                return false;
            }
        }
        index += 1;
    }
    true
}

/// One record that cannot be decoded makes the records unsound, however
/// many follow.
proof fn lemma_unsound_record(
    data: Seq<u8>,
    records: int,
    storage: int,
    end: int,
    index: int,
    count: int,
)
    requires
        0 <= index < count,
        !name_record_is_sound(data, records, storage, end, index),
    ensures
        !name_records_are_sound(data, records, storage, end, count),
    decreases count,
{
    if index < count - 1 {
        lemma_unsound_record(data, records, storage, end, index, count - 1);
    }
}

/// One table that is unsound makes the directory unsound, however many
/// follow.
proof fn lemma_unsound_table(data: Seq<u8>, directory: int, index: int, count: int)
    requires
        0 <= index < count,
        !table_is_sound(data, directory, index),
    ensures
        !tables_are_sound(data, directory, count),
    decreases count,
{
    if index < count - 1 {
        lemma_unsound_table(data, directory, index, count - 1);
    }
}

/// Whether every full name that the font resource holds can be decoded.
pub fn has_decodable_names(data: &[u8]) -> (sound: bool)
    ensures
        sound == names_are_decodable(data@),
{
    let len = data.len() as u64;
    if len < 4 {
        return true;
    }
    let directory = if read32(data, 0) == COLLECTION_MAGIC {
        if len < 16 {
            return true;
        }
        let first = read32(data, 12);
        if first > len {
            return true;
        }
        first
    } else {
        0
    };
    if directory + 6 > len {
        return true;
    }
    let count = read16(data, directory + 4);
    if directory + 12 + 16 * count > len {
        return true;
    }
    assert(directory_at(data@) == Some(directory as int));
    let mut index: u64 = 0;
    while index < count
        invariant
            index <= count < 65536,
            len == data@.len(),
            directory < 0x1_0000_0000,
            directory + 12 + 16 * count <= len,
            tables_are_sound(data@, directory as int, index as int),
            names_are_decodable(data@) == tables_are_sound(
                data@,
                directory as int,
                count as int,
            ),
        decreases count - index,
    {
        let at = directory + 12 + 16 * index;
        let tag = read32(data, at);
        let start = read32(data, at + 8);
        let end = start + read32(data, at + 12);
        if tag == NAME_TAG && end <= len {
            if !check_name_table(data, start, end) {
                proof {
                    lemma_unsound_table(data@, directory as int, index as int, count as int);
                }
                return false;
            }
        }
        index += 1;
    }
    true
}

} // verus!
