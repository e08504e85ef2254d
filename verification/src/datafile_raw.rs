//! The headers of the low-level Teeworlds map file format ("datafiles").
use vstd::prelude::*;

verus! {

/// The datafile is malformed.
#[derive(Clone, Copy, Debug, PartialEq, Eq, Structural)]
pub enum DatafileErr {
    WrongMagic,
    UnsupportedVersion,
    MalformedHeader,
    Malformed,
    CompressionError,
}

pub const DATAFILE_MAGIC: [u8; 4] = [0x44, 0x41, 0x54, 0x41];

pub const DATAFILE_MAGIC_BIGENDIAN: [u8; 4] = [0x41, 0x54, 0x41, 0x44];

pub const DATAFILE_VERSION3: i32 = 3;

pub const DATAFILE_VERSION4: i32 = 4;

pub const DATAFILE_ITEMTYPE_ID_RANGE: i32 = 0x10000;

/// The first eight bytes of a datafile: its magic and its version.
#[derive(Clone, Copy, Debug)]
pub struct DatafileHeaderVersion {
    pub magic: [u8; 4],
    pub version: i32,
}

/// The sizes of the tables of a datafile.
#[derive(Clone, Copy, Debug, PartialEq, Eq, Structural)]
pub struct DatafileHeader {
    pub _size: i32,
    pub _swaplen: i32,
    pub num_item_types: i32,
    pub num_items: i32,
    pub num_data: i32,
    pub size_items: i32,
    pub size_data: i32,
}

/// A run of items of one type.
#[derive(Clone, Copy, Debug, PartialEq, Eq, Structural)]
pub struct DatafileItemType {
    pub type_id: i32,
    pub start: i32,
    pub num: i32,
}

/// The header of an item: its type and id packed into one integer, and the
/// size of its data in bytes.
#[allow(non_snake_case)]
#[derive(Clone, Copy, Debug, PartialEq, Eq, Structural)]
pub struct DatafileItemHeader {
    pub type_id__id: i32,
    pub size: i32,
}

/// An item: its type, its id and its data.
#[derive(Clone, Copy, Debug)]
pub struct DatafileItem<'a> {
    pub type_id: u16,
    pub id: u16,
    pub data: &'a [i32],
}

fn bytes4_eq(a: &[u8; 4], b: &[u8; 4]) -> (r: bool)
    ensures
        r == (a@ == b@),
{
    let r = a[0] == b[0] && a[1] == b[1] && a[2] == b[2] && a[3] == b[3];
    proof {
        if r {
            assert(a@ =~= b@);
        }
    }
    r
}

impl DatafileHeaderVersion {
    /// The error the header gives, if any: a magic other than `DATA` (either
    /// byte order), or a version other than 3 or 4.
    pub open spec fn error(self) -> Option<DatafileErr> {
        if self.magic@ != DATAFILE_MAGIC@ && self.magic@ != DATAFILE_MAGIC_BIGENDIAN@ {
            Some(DatafileErr::WrongMagic)
        } else if self.version != DATAFILE_VERSION3 && self.version != DATAFILE_VERSION4 {
            Some(DatafileErr::UnsupportedVersion)
        } else {
            None
        }
    }

    pub fn check(&self) -> (r: Result<(), DatafileErr>)
        ensures
            r == (match self.error() {
                Some(e) => Err(e),
                None => Ok(()),
            }),
    {
        if !bytes4_eq(&self.magic, &DATAFILE_MAGIC) && !bytes4_eq(&self.magic, &DATAFILE_MAGIC_BIGENDIAN) {
            Err(DatafileErr::WrongMagic)
        } else if self.version != DATAFILE_VERSION3 && self.version != DATAFILE_VERSION4 {
            Err(DatafileErr::UnsupportedVersion)
        } else {
            Ok(())
        }
    }
}

impl DatafileHeader {
    /// No size is negative and the size of the items is a multiple of 4.
    pub open spec fn valid(self) -> bool {
        &&& self._size >= 0
        &&& self._swaplen >= 0
        &&& self.num_item_types >= 0
        &&& self.num_items >= 0
        &&& self.num_data >= 0
        &&& self.size_items >= 0
        &&& self.size_data >= 0
        &&& self.size_items % 4 == 0
    }

    pub fn check(&self) -> (r: Result<(), DatafileErr>)
        ensures
            r == (if self.valid() {
                Ok(())
            } else {
                Err(DatafileErr::MalformedHeader)
            }),
    {
        if self._size < 0 || self._swaplen < 0 || self.num_item_types < 0 || self.num_items < 0
            || self.num_data < 0 || self.size_items < 0 || self.size_data < 0 {
            Err(DatafileErr::MalformedHeader)
        } else if (self.size_items as u32) % 4 != 0 {
            Err(DatafileErr::MalformedHeader)
        } else {
            Ok(())
        }
    }
}

/// The type stored in the high 16 bits of `v`.
pub open spec fn high16(v: i32) -> u16 {
    (((v as u32) >> 16u32) & 0xffffu32) as u16
}

/// The id stored in the low 16 bits of `v`.
pub open spec fn low16(v: i32) -> u16 {
    ((v as u32) & 0xffffu32) as u16
}

/// Type and id packed into one integer.
pub open spec fn pack16(type_id: u16, id: u16) -> i32 {
    (((type_id as u32) << 16u32) | (id as u32)) as i32
}

impl DatafileItemHeader {
    pub fn type_id(&self) -> (r: u16)
        ensures
            r == high16(self.type_id__id),
    {
        (((self.type_id__id as u32) >> 16) & 0xffff) as u16
    }

    pub fn id(&self) -> (r: u16)
        ensures
            r == low16(self.type_id__id),
    {
        ((self.type_id__id as u32) & 0xffff) as u16
    }

    #[allow(non_snake_case)]
    pub fn set_type_id__id(&mut self, type_id: u16, id: u16)
        ensures
            final(self).type_id__id == pack16(type_id, id),
            final(self).size == old(self).size,
    {
        self.type_id__id = (((type_id as u32) << 16) | (id as u32)) as i32;
    }
}

/// Setting the type and id of an item header and reading them back gives
/// them unchanged.
pub proof fn lemma_type_id_roundtrip(type_id: u16, id: u16)
    ensures
        high16(pack16(type_id, id)) == type_id,
        low16(pack16(type_id, id)) == id,
{
    let t = type_id;
    let i = id;
    assert(((((((t as u32) << 16u32) | (i as u32)) as i32) as u32 >> 16u32) & 0xffffu32) as u16 == t)
        by (bit_vector);
    assert((((((t as u32) << 16u32) | (i as u32)) as i32) as u32 & 0xffffu32) as u16 == i)
        by (bit_vector);
}

// ---------------------------------------------------------------------------
// The tables of a datafile.

/// How checking the tables of a datafile ends.
#[derive(Clone, Copy, Debug, PartialEq, Eq, Structural)]
pub enum TableCheck {
    /// The tables are consistent.
    Valid,
    /// They are not.
    Malformed,
    /// A start of an item type, or an item offset, is such that checking it
    /// runs out of range: a start so negative that the room after it
    /// overflows, or an offset that is no multiple of 4.
    Overflow,
}

/// The number of items of the item types before the `i`-th.
pub open spec fn start_sum(types: Seq<DatafileItemType>, i: int) -> int
    decreases i,
{
    if i <= 0 {
        0
    } else {
        start_sum(types, i - 1) + types[i - 1].num
    }
}

/// Checks the item types from the `i`-th on: type ids in range and
/// distinct, each run of items right after the one before, all runs
/// together covering the `num_items` items.
pub open spec fn types_check(types: Seq<DatafileItemType>, num_items: i32, i: int) -> TableCheck
    decreases types.len() - i,
{
    if i >= types.len() {
        if start_sum(types, types.len() as int) == num_items {
            TableCheck::Valid
        } else {
            TableCheck::Malformed
        }
    } else {
        let t = types[i];
        if !(0 <= t.type_id < DATAFILE_ITEMTYPE_ID_RANGE) {
            TableCheck::Malformed
        } else if t.num < 0 {
            TableCheck::Malformed
        } else if num_items - t.start > i32::MAX {
            TableCheck::Overflow
        } else if t.num > num_items - t.start {
            TableCheck::Malformed
        } else if t.start != start_sum(types, i) {
            TableCheck::Malformed
        } else if exists|k: int| 0 <= k < i && types[k].type_id == t.type_id {
            TableCheck::Malformed
        } else {
            types_check(types, num_items, i + 1)
        }
    }
}

/// Checks the items from the `i`-th on, the `i`-th expected at byte
/// `offset`: each item is an 8-byte header and its data, right after the
/// one before, all within `size_items` bytes, which they fill.
pub open spec fn items_check(
    offsets: Seq<i32>,
    raw: Seq<i32>,
    size_items: i32,
    i: int,
    offset: int,
) -> TableCheck
    decreases offsets.len() - i,
{
    if i >= offsets.len() {
        if offset == size_items {
            TableCheck::Valid
        } else {
            TableCheck::Malformed
        }
    } else if offsets[i] < 0 || offset != offsets[i] {
        TableCheck::Malformed
    } else if offset + 8 > size_items {
        TableCheck::Malformed
    } else if offset % 4 != 0 {
        TableCheck::Overflow
    } else {
        let size = raw[offset / 4 + 1];
        if size < 0 || offset + 8 + size > size_items {
            TableCheck::Malformed
        } else {
            items_check(offsets, raw, size_items, i + 1, offset + 8 + size)
        }
    }
}

/// The data offsets are within `size_data` and do not go back; the
/// uncompressed sizes, where given, are not negative.
pub open spec fn data_ok(offsets: Seq<i32>, sizes: Option<Seq<i32>>, size_data: i32) -> bool {
    &&& forall|i: int| 0 <= i < offsets.len() ==> 0 <= #[trigger] offsets[i] <= size_data
    &&& forall|i: int, j: int| 0 <= i < j < offsets.len() ==> offsets[i] <= offsets[j]
    &&& sizes matches Some(u) ==> forall|i: int| 0 <= i < offsets.len() ==> #[trigger] u[i] >= 0
}

/// Every item of a run has the type of its run.
pub open spec fn item_type_ids_ok(types: Seq<DatafileItemType>, offsets: Seq<i32>, raw: Seq<i32>) -> bool {
    forall|i: int, k: int|
        #![trigger types[i], offsets[k]]
        0 <= i < types.len() && types[i].start <= k < types[i].start + types[i].num ==> high16(
            raw[offsets[k] / 4],
        ) == (types[i].type_id as u16)
}

/// All checks of the tables, in order: the first that fails decides.
pub open spec fn tables_check(
    header: DatafileHeader,
    types: Seq<DatafileItemType>,
    item_offsets: Seq<i32>,
    data_offsets: Seq<i32>,
    sizes: Option<Seq<i32>>,
    raw: Seq<i32>,
) -> TableCheck {
    let t = types_check(types, header.num_items, 0);
    let it = items_check(item_offsets, raw, header.size_items, 0, 0);
    if t != TableCheck::Valid {
        t
    } else if it != TableCheck::Valid {
        it
    } else if !data_ok(data_offsets, sizes, header.size_data) {
        TableCheck::Malformed
    } else if !item_type_ids_ok(types, item_offsets, raw) {
        TableCheck::Malformed
    } else {
        TableCheck::Valid
    }
}

/// Checks the item types.
fn check_types(types: &Vec<DatafileItemType>, num_items: i32) -> (r: TableCheck)
    requires
        num_items >= 0,
    ensures
        r == types_check(types@, num_items, 0),
{
    let mut expected: i32 = 0;
    let mut i: usize = 0;
    while i < types.len()
        invariant
            i <= types@.len(),
            num_items >= 0,
            expected == start_sum(types@, i as int),
            0 <= expected,
            i > 0 ==> expected <= num_items,
            types_check(types@, num_items, 0) == types_check(types@, num_items, i as int),
        decreases types.len() - i,
    {
        let t = types[i];
        if !(0 <= t.type_id && t.type_id < DATAFILE_ITEMTYPE_ID_RANGE) {
            return TableCheck::Malformed;
        }
        if t.num < 0 {
            return TableCheck::Malformed;
        }
        if (num_items as i64) - (t.start as i64) > i32::MAX as i64 {
            return TableCheck::Overflow;
        }
        if t.num > num_items - t.start {
            return TableCheck::Malformed;
        }
        if t.start != expected {
            return TableCheck::Malformed;
        }
        let mut k: usize = 0;
        while k < i
            invariant
                k <= i < types@.len(),
                t == types@[i as int],
                forall|j: int| 0 <= j < k ==> types@[j].type_id != t.type_id,
                num_items >= 0,
                types_check(types@, num_items, 0) == types_check(types@, num_items, i as int),
                expected == start_sum(types@, i as int),
                0 <= expected,
                t.start == expected,
                0 <= t.type_id < DATAFILE_ITEMTYPE_ID_RANGE,
                0 <= t.num,
                num_items - t.start <= i32::MAX,
                t.num <= num_items - t.start,
            decreases i - k,
        {
            if types[k].type_id == t.type_id {
                proof {
                    assert(0 <= k < i && types@[k as int].type_id == t.type_id);
                    assert(exists|j: int| 0 <= j < i && types@[j].type_id == t.type_id);
                }
                return TableCheck::Malformed;
            }
            k = k + 1;
        }
        expected = expected + t.num;
        i = i + 1;
    }
    if expected == num_items {
        TableCheck::Valid
    } else {
        TableCheck::Malformed
    }
}

/// Checks the items.
fn check_items(offsets: &Vec<i32>, raw: &Vec<i32>, size_items: i32) -> (r: TableCheck)
    requires
        size_items >= 0,
        raw@.len() == size_items / 4,
    ensures
        r == items_check(offsets@, raw@, size_items, 0, 0),
{
    let mut offset: u64 = 0;
    let mut i: usize = 0;
    while i < offsets.len()
        invariant
            i <= offsets@.len(),
            size_items >= 0,
            raw@.len() == size_items / 4,
            offset <= size_items,
            items_check(offsets@, raw@, size_items, 0, 0) == items_check(offsets@, raw@, size_items, i as int, offset as int),
        decreases offsets.len() - i,
    {
        let o = offsets[i];
        if o < 0 || offset != o as u64 {
            return TableCheck::Malformed;
        }
        if offset + 8 > size_items as u64 {
            return TableCheck::Malformed;
        }
        if offset % 4 != 0 {
            return TableCheck::Overflow;
        }
        let size = raw[(offset / 4) as usize + 1];
        if size < 0 || offset + 8 + size as u64 > size_items as u64 {
            return TableCheck::Malformed;
        }
        offset = offset + 8 + size as u64;
        i = i + 1;
    }
    if offset == size_items as u64 {
        TableCheck::Valid
    } else {
        TableCheck::Malformed
    }
}

/// Checks the data offsets and uncompressed sizes.
fn check_data(offsets: &Vec<i32>, sizes: &Option<Vec<i32>>, size_data: i32) -> (r: bool)
    requires
        sizes matches Some(u) ==> u@.len() == offsets@.len(),
    ensures
        r == data_ok(
            offsets@,
            match sizes {
                Some(u) => Some(u@),
                None => None,
            },
            size_data,
        ),
{
    let ghost su = match sizes {
        Some(u) => Some(u@),
        None => None::<Seq<i32>>,
    };
    let mut previous: i32 = 0;
    let mut i: usize = 0;
    while i < offsets.len()
        invariant
            i <= offsets@.len(),
            su == (match sizes {
                Some(u) => Some(u@),
                None => None,
            }),
            sizes matches Some(u) ==> u@.len() == offsets@.len(),
            forall|k: int| 0 <= k < i ==> 0 <= #[trigger] offsets@[k] <= size_data,
            forall|a: int, b: int| 0 <= a < b < i ==> offsets@[a] <= offsets@[b],
            i > 0 ==> previous == offsets@[i - 1],
            i == 0 ==> previous == 0,
            su matches Some(u) ==> forall|k: int| 0 <= k < i ==> #[trigger] u[k] >= 0,
        decreases offsets.len() - i,
    {
        match sizes {
            Some(u) => {
                if u[i] < 0 {
                    proof {
                        assert(su->0[i as int] < 0);
                    }
                    return false;
                }
            },
            None => {},
        }
        let offset = offsets[i];
        if offset < 0 || offset > size_data {
            return false;
        }
        if previous > offset {
            return false;
        }
        previous = offset;
        i = i + 1;
    }
    true
}

/// What valid item types say of each run: a type id in range, seen once;
/// a run of items after the ones before, within the items.
proof fn lemma_types_valid(types: Seq<DatafileItemType>, num_items: i32, i: int)
    requires
        0 <= i <= types.len(),
        types_check(types, num_items, i) == TableCheck::Valid,
    ensures
        start_sum(types, types.len() as int) == num_items,
        forall|j: int|
            #![trigger types[j]]
            i <= j < types.len() ==> {
                &&& 0 <= types[j].type_id < DATAFILE_ITEMTYPE_ID_RANGE
                &&& types[j].num >= 0
                &&& types[j].start == start_sum(types, j)
                &&& forall|k: int| 0 <= k < j ==> types[k].type_id != types[j].type_id
            },
    decreases types.len() - i,
{
    if i < types.len() {
        lemma_types_valid(types, num_items, i + 1);
    }
}

/// Runs of items lie after each other.
proof fn lemma_start_sum_mono(types: Seq<DatafileItemType>, a: int, b: int)
    requires
        0 <= a <= b <= types.len(),
        forall|j: int| #![trigger types[j]] 0 <= j < types.len() ==> types[j].num >= 0,
    ensures
        start_sum(types, a) <= start_sum(types, b),
    decreases b - a,
{
    if a < b {
        lemma_start_sum_mono(types, a, b - 1);
    }
}

/// Runs of items start at 0 or later.
proof fn lemma_start_sum_nonneg(types: Seq<DatafileItemType>, a: int)
    requires
        0 <= a <= types.len(),
        forall|j: int| #![trigger types[j]] 0 <= j < types.len() ==> types[j].num >= 0,
    ensures
        start_sum(types, a) >= 0,
    decreases a,
{
    if a > 0 {
        lemma_start_sum_nonneg(types, a - 1);
    }
}

/// What valid items say of each item: its header at a multiple of 4
/// within the items, its size not negative, a multiple of 4, and its data
/// within the items.
proof fn lemma_items_valid(offsets: Seq<i32>, raw: Seq<i32>, size_items: i32, i: int, offset: int)
    requires
        0 <= i <= offsets.len(),
        offset >= 0,
        size_items % 4 == 0,
        raw.len() == size_items / 4,
        items_check(offsets, raw, size_items, i, offset) == TableCheck::Valid,
    ensures
        i < offsets.len() ==> offsets[i] == offset,
        forall|k: int|
            i <= k < offsets.len() ==> {
                &&& #[trigger] offsets[k] >= 0
                &&& offsets[k] % 4 == 0
                &&& offsets[k] + 8 <= size_items
                &&& raw[offsets[k] / 4 + 1] >= 0
                &&& raw[offsets[k] / 4 + 1] % 4 == 0
                &&& offsets[k] + 8 + raw[offsets[k] / 4 + 1] <= size_items
            },
    decreases offsets.len() - i,
{
    if i < offsets.len() {
        let size = raw[offset / 4 + 1];
        let next = offset + 8 + size;
        lemma_items_valid(offsets, raw, size_items, i + 1, next);
        assert(next % 4 == 0) by {
            if i + 1 < offsets.len() {
                assert(offsets[i + 1] == next);
            }
        }
    }
}

/// A datafile read into memory: its headers and tables, and where its data
/// starts in the file.
pub struct DatafileReader {
    header_ver: DatafileHeaderVersion,
    header: DatafileHeader,
    item_types: Vec<DatafileItemType>,
    item_offsets: Vec<i32>,
    data_offsets: Vec<i32>,
    uncomp_data_sizes: Option<Vec<i32>>,
    items_raw: Vec<i32>,
    data_offset: u64,
}

/// The uncompressed sizes, where given.
pub open spec fn opt_sizes(u: Option<Vec<i32>>) -> Option<Seq<i32>> {
    match u {
        Some(u) => Some(u@),
        None => None,
    }
}

/// The data of the item whose header is at byte `offset` of `raw`.
pub open spec fn item_data(raw: Seq<i32>, offset: int) -> Seq<i32> {
    raw.subrange(offset / 4 + 2, offset / 4 + 2 + raw[offset / 4 + 1] / 4)
}

impl DatafileReader {
    /// The tables fit the header and passed their checks.
    pub closed spec fn wf(&self) -> bool {
        &&& self.header.valid()
        &&& self.header_ver.error() is None
        &&& self.item_types@.len() == self.header.num_item_types
        &&& self.item_offsets@.len() == self.header.num_items
        &&& self.data_offsets@.len() == self.header.num_data
        &&& (self.uncomp_data_sizes matches Some(u) ==> u@.len() == self.header.num_data)
        &&& self.items_raw@.len() == self.header.size_items / 4
        &&& tables_check(
            self.header,
            self.item_types@,
            self.item_offsets@,
            self.data_offsets@,
            opt_sizes(self.uncomp_data_sizes),
            self.items_raw@,
        ) == TableCheck::Valid
    }

    /// The item types.
    pub closed spec fn spec_types(&self) -> Seq<DatafileItemType> {
        self.item_types@
    }

    /// The byte offsets of the items.
    pub closed spec fn spec_item_offsets(&self) -> Seq<i32> {
        self.item_offsets@
    }

    /// The items, as integers.
    pub closed spec fn spec_items_raw(&self) -> Seq<i32> {
        self.items_raw@
    }

    /// The offsets of the data, from where the data starts.
    pub closed spec fn spec_data_offsets(&self) -> Seq<i32> {
        self.data_offsets@
    }

    /// The header.
    pub closed spec fn spec_header(&self) -> DatafileHeader {
        self.header
    }

    /// Where the data starts in the file.
    pub closed spec fn spec_data_offset(&self) -> u64 {
        self.data_offset
    }

    /// The uncompressed sizes of the data, for version 4.
    pub closed spec fn spec_uncomp_sizes(&self) -> Option<Seq<i32>> {
        opt_sizes(self.uncomp_data_sizes)
    }

    proof fn lemma_wf(&self)
        requires
            self.wf(),
        ensures
            forall|j: int|
                0 <= j < self.item_types@.len() ==> {
                    &&& 0 <= #[trigger] self.item_types@[j].type_id < DATAFILE_ITEMTYPE_ID_RANGE
                    &&& self.item_types@[j].num >= 0
                    &&& self.item_types@[j].start >= 0
                    &&& self.item_types@[j].start + self.item_types@[j].num <= self.item_offsets@.len()
                },
            forall|k: int|
                0 <= k < self.item_offsets@.len() ==> {
                    &&& #[trigger] self.item_offsets@[k] >= 0
                    &&& self.item_offsets@[k] % 4 == 0
                    &&& self.item_offsets@[k] / 4 + 2 <= self.items_raw@.len()
                    &&& self.items_raw@[self.item_offsets@[k] / 4 + 1] >= 0
                    &&& self.items_raw@[self.item_offsets@[k] / 4 + 1] % 4 == 0
                    &&& self.item_offsets@[k] / 4 + 2 + self.items_raw@[self.item_offsets@[k] / 4 + 1] / 4
                        <= self.items_raw@.len()
                },
            data_ok(self.data_offsets@, opt_sizes(self.uncomp_data_sizes), self.header.size_data),
            item_type_ids_ok(self.item_types@, self.item_offsets@, self.items_raw@),
    {
        let types = self.item_types@;
        lemma_types_valid(types, self.header.num_items, 0);
        lemma_items_valid(self.item_offsets@, self.items_raw@, self.header.size_items, 0, 0);
        assert forall|j: int| 0 <= j < types.len() implies {
            &&& types[j].start >= 0
            &&& types[j].start + types[j].num <= self.item_offsets@.len()
        } by {
            lemma_start_sum_mono(types, j, j + 1);
            lemma_start_sum_mono(types, j + 1, types.len() as int);
            lemma_start_sum_nonneg(types, j);
        }
    }

    /// The items of the run of type `t` are items of the file, and their
    /// headers name the type `t`.
    pub proof fn lemma_run_type(&self, t: u16, k: int)
        requires
            self.wf(),
            run_start(self.spec_types(), t) as usize <= k < (run_start(self.spec_types(), t) + run_num(
                self.spec_types(),
                t,
            )) as usize,
        ensures
            0 <= k < self.spec_item_offsets().len(),
            high16(self.spec_items_raw()[self.spec_item_offsets()[k] / 4]) == t,
    {
        let types = self.item_types@;
        if first_type(types, t) is None {
            assert(false);
        }
        let j = choose|j: int| 0 <= j < types.len() && types[j].type_id as u16 == t;
        lemma_first_type_witness(types, t, j);
        let i = first_type(types, t).unwrap();
        assert(0 <= i < types.len() && types[i].type_id as u16 == t);
        assert(0 <= types[i].start && 0 <= types[i].num && types[i].start + types[i].num
            <= self.item_offsets@.len()) by {
            self.lemma_wf();
        }
        assert(types[i].start <= k < types[i].start + types[i].num);
        assert(item_type_ids_ok(types, self.item_offsets@, self.items_raw@));
        assert(high16(self.items_raw@[self.item_offsets@[k] / 4]) == (types[i].type_id as u16));
    }

    /// The type id of the `index`-th item type.
    pub fn item_type(&self, index: usize) -> (r: u16)
        requires
            self.wf(),
            index < self.spec_types().len(),
        ensures
            r == self.spec_types()[index as int].type_id as u16,
    {
        self.item_types[index].type_id as u16
    }

    /// The number of item types.
    pub fn num_item_types(&self) -> (r: usize)
        requires
            self.wf(),
        ensures
            r == self.spec_types().len(),
    {
        self.item_types.len()
    }

    /// The number of items.
    pub fn num_items(&self) -> (r: usize)
        requires
            self.wf(),
        ensures
            r == self.spec_item_offsets().len(),
    {
        self.item_offsets.len()
    }

    /// The number of data.
    pub fn num_data(&self) -> (r: usize)
        requires
            self.wf(),
        ensures
            r == self.spec_data_offsets().len(),
    {
        self.data_offsets.len()
    }

    /// The `index`-th item: type id and id from its header, and its data.
    pub fn item(&self, index: usize) -> (r: DatafileItem)
        requires
            self.wf(),
            index < self.spec_item_offsets().len(),
        ensures
            ({
                let o = self.spec_item_offsets()[index as int];
                let raw = self.spec_items_raw();
                &&& r.type_id == high16(raw[o / 4])
                &&& r.id == low16(raw[o / 4])
                &&& r.data@ == item_data(raw, o as int)
            }),
    {
        proof {
            self.lemma_wf();
        }
        let o = self.item_offsets[index];
        let at = (o / 4) as usize;
        let header = DatafileItemHeader { type_id__id: self.items_raw[at], size: self.items_raw[at + 1] };
        let size = (header.size / 4) as usize;
        let data = slice_range(self.items_raw.as_slice(), at + 2, at + 2 + size);
        DatafileItem { type_id: header.type_id(), id: header.id(), data }
    }

    /// The run of items of type `type_id`: its start and length; nothing
    /// where there is no such type.
    pub fn item_type_indexes_start_num(&self, type_id: u16) -> (r: (usize, usize))
        requires
            self.wf(),
        ensures
            match first_type(self.spec_types(), type_id) {
                Some(i) => r.0 == self.spec_types()[i].start && r.1 == self.spec_types()[i].num,
                None => r == (0usize, 0usize),
            },
            r.0 + r.1 <= self.spec_item_offsets().len(),
    {
        proof {
            self.lemma_wf();
        }
        let mut i: usize = 0;
        while i < self.item_types.len()
            invariant
                self.wf(),
                i <= self.item_types@.len(),
                forall|k: int| 0 <= k < i ==> self.item_types@[k].type_id as u16 != type_id,
            decreases self.item_types.len() - i,
        {
            let t = self.item_types[i];
            if t.type_id as u16 == type_id {
                proof {
                    self.lemma_wf();
                    assert(self.item_types@[i as int] == t);
                    assert(first_type(self.item_types@, type_id) == Some(i as int)) by {
                        let c = choose|c: int| 0 <= c < self.item_types@.len() && self.item_types@[c].type_id as u16 == type_id
                            && forall|k: int| 0 <= k < c ==> self.item_types@[k].type_id as u16 != type_id;
                        if c < i {
                        } else if c > i {
                            assert(self.item_types@[i as int].type_id as u16 == type_id);
                        }
                    }
                }
                return (t.start as usize, t.num as usize);
            }
            i = i + 1;
        }
        proof {
            if first_type(self.item_types@, type_id) is Some {
                let c = first_type(self.item_types@, type_id)->0;
                assert(self.item_types@[c].type_id as u16 == type_id);
            }
        }
        (0, 0)
    }

    /// The items of type `type_id`, in order.
    pub fn item_type_items(&self, type_id: u16) -> (r: Vec<DatafileItem>)
        requires
            self.wf(),
        ensures
            ({
                let start = run_start(self.spec_types(), type_id);
                let num = run_num(self.spec_types(), type_id);
                &&& r@.len() == num
                &&& forall|k: int|
                    0 <= k < num ==> {
                        let o = self.spec_item_offsets()[start + k];
                        let raw = self.spec_items_raw();
                        &&& (#[trigger] r@[k]).type_id == high16(raw[o / 4])
                        &&& r@[k].id == low16(raw[o / 4])
                        &&& r@[k].data@ == item_data(raw, o as int)
                    }
            }),
    {
        let (start, num) = self.item_type_indexes_start_num(type_id);
        let mut r: Vec<DatafileItem> = Vec::new();
        let mut k: usize = 0;
        while k < num
            invariant
                self.wf(),
                start + num <= self.spec_item_offsets().len(),
                k <= num,
                r@.len() == k,
                forall|j: int|
                    0 <= j < k ==> {
                        let o = self.spec_item_offsets()[start + j];
                        let raw = self.spec_items_raw();
                        &&& (#[trigger] r@[j]).type_id == high16(raw[o / 4])
                        &&& r@[j].id == low16(raw[o / 4])
                        &&& r@[j].data@ == item_data(raw, o as int)
                    },
            decreases num - k,
        {
            r.push(self.item(start + k));
            k = k + 1;
        }
        r
    }

    /// The item of type `type_id` and id `id`, the first where there are
    /// several.
    pub fn item_find(&self, type_id: u16, id: u16) -> (r: Option<DatafileItem>)
        requires
            self.wf(),
        ensures
            ({
                let start = run_start(self.spec_types(), type_id);
                let num = run_num(self.spec_types(), type_id);
                let raw = self.spec_items_raw();
                let offs = self.spec_item_offsets();
                &&& r is None <==> forall|k: int| 0 <= k < num ==> low16(raw[#[trigger] offs[start + k] / 4]) != id
                &&& r matches Some(item) ==> {
                    let k = first_id(raw, offs, start, num, id);
                    &&& 0 <= k < num
                    &&& low16(raw[offs[start + k] / 4]) == id
                    &&& forall|j: int| 0 <= j < k ==> low16(raw[#[trigger] offs[start + j] / 4]) != id
                    &&& item.type_id == high16(raw[offs[start + k] / 4])
                    &&& item.id == id
                    &&& item.data@ == item_data(raw, offs[start + k] as int)
                }
            }),
    {
        let (start, num) = self.item_type_indexes_start_num(type_id);
        let mut k: usize = 0;
        while k < num
            invariant
                self.wf(),
                start + num <= self.spec_item_offsets().len(),
                match first_type(self.spec_types(), type_id) {
                    Some(i) => start == self.spec_types()[i].start && num == self.spec_types()[i].num,
                    None => start == 0 && num == 0,
                },
                k <= num,
                forall|j: int| 0 <= j < k ==> low16(self.spec_items_raw()[#[trigger] self.spec_item_offsets()[start + j] / 4]) != id,
            decreases num - k,
        {
            let item = self.item(start + k);
            if item.id == id {
                proof {
                    let raw = self.spec_items_raw();
                    let offs = self.spec_item_offsets();
                    assert(low16(raw[offs[start + k] / 4]) == id);
                    assert(0 <= k < num && low16(raw[offs[start + k] / 4]) == id && forall|j: int|
                        0 <= j < k ==> low16(raw[#[trigger] offs[start + j] / 4]) != id);
                    let c = first_id(raw, offs, start as int, num as int, id);
                    assert(c == k as int) by {
                        if c < k {
                        } else if c > k {
                            assert(low16(raw[offs[start + k] / 4]) == id);
                        }
                    }
                    let s2 = run_start(self.spec_types(), type_id);
                    let n2 = run_num(self.spec_types(), type_id);
                    assert(s2 == start && n2 == num);
                    assert(!(forall|j: int| 0 <= j < num ==> low16(raw[#[trigger] offs[start + j] / 4]) != id));
                }
                return Some(item);
            }
            k = k + 1;
        }
        None
    }

    /// All items, in order.
    pub fn items(&self) -> (r: Vec<DatafileItem>)
        requires
            self.wf(),
        ensures
            r@.len() == self.spec_item_offsets().len(),
            forall|k: int|
                0 <= k < r@.len() ==> {
                    let o = self.spec_item_offsets()[k];
                    let raw = self.spec_items_raw();
                    &&& (#[trigger] r@[k]).type_id == high16(raw[o / 4])
                    &&& r@[k].id == low16(raw[o / 4])
                    &&& r@[k].data@ == item_data(raw, o as int)
                },
    {
        let mut r: Vec<DatafileItem> = Vec::new();
        let mut k: usize = 0;
        while k < self.item_offsets.len()
            invariant
                self.wf(),
                k <= self.spec_item_offsets().len(),
                r@.len() == k,
                forall|j: int|
                    0 <= j < k ==> {
                        let o = self.spec_item_offsets()[j];
                        let raw = self.spec_items_raw();
                        &&& (#[trigger] r@[j]).type_id == high16(raw[o / 4])
                        &&& r@[j].id == low16(raw[o / 4])
                        &&& r@[j].data@ == item_data(raw, o as int)
                    },
            decreases self.spec_item_offsets().len() - k,
        {
            r.push(self.item(k));
            k = k + 1;
        }
        r
    }

    /// The type ids of all item types, in order.
    pub fn item_types(&self) -> (r: Vec<u16>)
        requires
            self.wf(),
        ensures
            r@.len() == self.spec_types().len(),
            forall|k: int| 0 <= k < r@.len() ==> #[trigger] r@[k] == self.spec_types()[k].type_id as u16,
    {
        let mut r: Vec<u16> = Vec::new();
        let mut k: usize = 0;
        while k < self.item_types.len()
            invariant
                self.wf(),
                k <= self.spec_types().len(),
                r@.len() == k,
                forall|j: int| 0 <= j < k ==> #[trigger] r@[j] == self.spec_types()[j].type_id as u16,
            decreases self.spec_types().len() - k,
        {
            r.push(self.item_type(k));
            k = k + 1;
        }
        r
    }

    /// The size in the file of the `index`-th data: up to the next data,
    /// or to the end of the data for the last.
    pub fn data_size_file(&self, index: usize) -> (r: usize)
        requires
            self.wf(),
            index < self.spec_data_offsets().len(),
        ensures
            r == (if index + 1 < self.spec_data_offsets().len() {
                self.spec_data_offsets()[index + 1]
            } else {
                self.spec_header().size_data
            }) - self.spec_data_offsets()[index as int],
    {
        proof {
            self.lemma_wf();
        }
        let start = self.data_offsets[index];
        let end = if index < self.data_offsets.len() - 1 {
            self.data_offsets[index + 1]
        } else {
            self.header.size_data
        };
        (end - start) as usize
    }

    /// Where the `index`-th data starts in the file.
    pub fn data_file_offset(&self, index: usize) -> (r: u64)
        requires
            self.wf(),
            index < self.spec_data_offsets().len(),
            self.spec_data_offset() + self.spec_data_offsets()[index as int] <= i64::MAX,
        ensures
            r == self.spec_data_offset() + self.spec_data_offsets()[index as int],
    {
        proof {
            self.lemma_wf();
        }
        self.data_offset + self.data_offsets[index] as u64
    }

    /// The size of the `index`-th data uncompressed, for version 4; data
    /// of version 3 is stored uncompressed.
    pub fn uncomp_data_size(&self, index: usize) -> (r: Option<usize>)
        requires
            self.wf(),
            index < self.spec_data_offsets().len(),
        ensures
            match self.spec_uncomp_sizes() {
                Some(u) => r == Some(u[index as int] as usize),
                None => r is None,
            },
    {
        proof {
            self.lemma_wf();
        }
        match &self.uncomp_data_sizes {
            Some(u) => Some(u[index] as usize),
            None => None,
        }
    }
}

/// The first item type of `types` with type id `type_id`.
pub open spec fn first_type(types: Seq<DatafileItemType>, type_id: u16) -> Option<int> {
    if exists|i: int| 0 <= i < types.len() && types[i].type_id as u16 == type_id {
        Some(
            choose|i: int|
                0 <= i < types.len() && types[i].type_id as u16 == type_id && forall|k: int|
                    0 <= k < i ==> types[k].type_id as u16 != type_id,
        )
    } else {
        None
    }
}

/// Where a type `type_id` is found at `j`, there is a first one.
proof fn lemma_first_type_witness(types: Seq<DatafileItemType>, type_id: u16, j: int)
    requires
        0 <= j < types.len(),
        types[j].type_id as u16 == type_id,
    ensures
        exists|i: int|
            0 <= i < types.len() && types[i].type_id as u16 == type_id && forall|k: int|
                0 <= k < i ==> types[k].type_id as u16 != type_id,
    decreases j,
{
    if exists|k: int| 0 <= k < j && types[k].type_id as u16 == type_id {
        let k = choose|k: int| 0 <= k < j && types[k].type_id as u16 == type_id;
        lemma_first_type_witness(types, type_id, k);
    } else {
        assert(forall|k: int| 0 <= k < j ==> types[k].type_id as u16 != type_id);
    }
}

/// Where the run of items of type `type_id` starts; 0 where there is none.
pub open spec fn run_start(types: Seq<DatafileItemType>, type_id: u16) -> int {
    match first_type(types, type_id) {
        Some(i) => types[i].start as int,
        None => 0,
    }
}

/// How many items the run of type `type_id` has; 0 where there is none.
pub open spec fn run_num(types: Seq<DatafileItemType>, type_id: u16) -> int {
    match first_type(types, type_id) {
        Some(i) => types[i].num as int,
        None => 0,
    }
}

/// The first of the `num` items from `start` on with id `id`.
pub open spec fn first_id(raw: Seq<i32>, offs: Seq<i32>, start: int, num: int, id: u16) -> int {
    choose|k: int|
        #![trigger offs[start + k]]
        0 <= k < num && low16(raw[offs[start + k] / 4]) == id && forall|j: int|
            0 <= j < k ==> low16(raw[#[trigger] offs[start + j] / 4]) != id
}

/// The part of `s` from `a` to `b`.
fn slice_range(s: &[i32], a: usize, b: usize) -> (r: &[i32])
    requires
        a <= b <= s@.len(),
    ensures
        r@ == s@.subrange(a as int, b as int),
{
    let r = &s[a..b];
    r
}

// ---------------------------------------------------------------------------
// Reading a datafile from its bytes.

/// Reading a datafile failed.
#[derive(Clone, Copy, Debug, PartialEq, Eq, Structural)]
pub enum ReadError {
    /// The file ends before its headers and tables do.
    UnexpectedEnd,
    /// The headers or tables are not a datafile's.
    Df(DatafileErr),
}

/// The little-endian 32-bit integer at byte `at` of `b`.
pub open spec fn le_i32_at(b: Seq<u8>, at: int) -> i32 {
    ((b[at] + 256 * b[at + 1] + 65536 * b[at + 2] + 16777216 * b[at + 3]) as u32) as i32
}

/// The `n` little-endian 32-bit integers from byte `at` of `b` on.
pub open spec fn i32s_at(b: Seq<u8>, at: int, n: int) -> Seq<i32> {
    Seq::new(n as nat, |k: int| le_i32_at(b, at + 4 * k))
}

/// The `n` item types from byte `at` of `b` on: type id, start and length
/// each.
pub open spec fn types_at(b: Seq<u8>, at: int, n: int) -> Seq<DatafileItemType> {
    Seq::new(
        n as nat,
        |k: int|
            DatafileItemType {
                type_id: le_i32_at(b, at + 12 * k),
                start: le_i32_at(b, at + 12 * k + 4),
                num: le_i32_at(b, at + 12 * k + 8),
            },
    )
}

/// The version header at the start of `b`.
pub open spec fn version_header_of(b: Seq<u8>) -> DatafileHeaderVersion {
    DatafileHeaderVersion { magic: [b[0], b[1], b[2], b[3]], version: le_i32_at(b, 4) }
}

/// The header after the version header of `b`.
pub open spec fn header_of(b: Seq<u8>) -> DatafileHeader {
    DatafileHeader {
        _size: le_i32_at(b, 8),
        _swaplen: le_i32_at(b, 12),
        num_item_types: le_i32_at(b, 16),
        num_items: le_i32_at(b, 20),
        num_data: le_i32_at(b, 24),
        size_items: le_i32_at(b, 28),
        size_data: le_i32_at(b, 32),
    }
}

/// The bytes the tables after the headers take: item types, item offsets,
/// data offsets, uncompressed sizes (version 4) and the items.
pub open spec fn tables_len(v: DatafileHeaderVersion, h: DatafileHeader) -> int {
    12 * h.num_item_types + 4 * h.num_items + 4 * h.num_data + (if v.version == DATAFILE_VERSION4 {
        4 * h.num_data
    } else {
        0
    }) + h.size_items
}

/// How reading the datafile `b` ends: which check fails first, or the
/// tables, checked.
pub open spec fn read_outcome(b: Seq<u8>) -> Result<TableCheck, ReadError> {
    if b.len() < 8 {
        Err(ReadError::UnexpectedEnd)
    } else if version_header_of(b).error() is Some {
        Err(ReadError::Df(version_header_of(b).error()->0))
    } else if b.len() < 36 {
        Err(ReadError::UnexpectedEnd)
    } else if !header_of(b).valid() {
        Err(ReadError::Df(DatafileErr::MalformedHeader))
    } else if 36 + tables_len(version_header_of(b), header_of(b)) > b.len() {
        Err(ReadError::UnexpectedEnd)
    } else {
        let v = version_header_of(b);
        let h = header_of(b);
        let p_types: int = 36;
        let p_items = p_types + 12 * h.num_item_types;
        let p_data = p_items + 4 * h.num_items;
        let p_sizes = p_data + 4 * h.num_data;
        let p_raw = p_sizes + (if v.version == DATAFILE_VERSION4 {
            4 * h.num_data
        } else {
            0
        });
        Ok(
            tables_check(
                h,
                types_at(b, p_types, h.num_item_types as int),
                i32s_at(b, p_items, h.num_items as int),
                i32s_at(b, p_data, h.num_data as int),
                if v.version == DATAFILE_VERSION4 {
                    Some(i32s_at(b, p_sizes, h.num_data as int))
                } else {
                    None
                },
                i32s_at(b, p_raw, h.size_items / 4),
            ),
        )
    }
}

/// Where the item offsets of the datafile `b` start.
pub open spec fn items_pos(b: Seq<u8>) -> int {
    36 + 12 * header_of(b).num_item_types
}

/// Where the data offsets of the datafile `b` start.
pub open spec fn data_pos(b: Seq<u8>) -> int {
    items_pos(b) + 4 * header_of(b).num_items
}

/// Where the uncompressed sizes of the datafile `b` start.
pub open spec fn sizes_pos(b: Seq<u8>) -> int {
    data_pos(b) + 4 * header_of(b).num_data
}

/// Where the items of the datafile `b` start.
pub open spec fn raw_pos(b: Seq<u8>) -> int {
    sizes_pos(b) + (if version_header_of(b).version == DATAFILE_VERSION4 {
        4 * header_of(b).num_data
    } else {
        0
    })
}

/// `r` is what reading the datafile `b` gives: for a valid file, a reader
/// of its headers and tables as they stand in `b`; else the first error.
pub open spec fn read_result(b: Seq<u8>, r: Result<DatafileReader, ReadError>) -> bool {
    match read_outcome(b) {
        Ok(TableCheck::Valid) => r matches Ok(d) && {
            let h = header_of(b);
            &&& d.wf()
            &&& d.spec_header() == h
            &&& d.spec_data_offset() == 36 + tables_len(version_header_of(b), h)
            &&& d.spec_types() == types_at(b, 36, h.num_item_types as int)
            &&& d.spec_item_offsets() == i32s_at(b, items_pos(b), h.num_items as int)
            &&& d.spec_data_offsets() == i32s_at(b, data_pos(b), h.num_data as int)
            &&& d.spec_uncomp_sizes() == (if version_header_of(b).version == DATAFILE_VERSION4 {
                Some(i32s_at(b, sizes_pos(b), h.num_data as int))
            } else {
                None
            })
            &&& d.spec_items_raw() == i32s_at(b, raw_pos(b), h.size_items / 4)
        },
        Ok(_) => r == Err::<DatafileReader, ReadError>(ReadError::Df(DatafileErr::Malformed)),
        Err(e) => r == Err::<DatafileReader, ReadError>(e),
    }
}

/// The little-endian 32-bit integer at byte `at`.
fn le_i32(b: &[u8], at: usize) -> (r: i32)
    requires
        at + 4 <= b@.len(),
    ensures
        r == le_i32_at(b@, at as int),
{
    let v: u32 = b[at] as u32 + 256 * b[at + 1] as u32 + 65536 * b[at + 2] as u32 + 16777216 * b[at + 3] as u32;
    v as i32
}

/// The `n` little-endian 32-bit integers from byte `at` on.
fn read_i32s(b: &[u8], at: usize, n: usize) -> (r: Vec<i32>)
    requires
        at + 4 * n <= b@.len(),
    ensures
        r@ == i32s_at(b@, at as int, n as int),
{
    let len = b.len();
    let mut r: Vec<i32> = Vec::new();
    let mut k: usize = 0;
    let mut pos: usize = at;
    while k < n
        invariant
            at + 4 * n <= b@.len(),
            k <= n,
            len == b@.len(),
            pos == at + 4 * k,
            r@ == i32s_at(b@, at as int, k as int),
        decreases n - k,
    {
        r.push(le_i32(b, pos));
        k = k + 1;
        pos = pos + 4;
        assert(r@ =~= i32s_at(b@, at as int, k as int));
    }
    r
}

/// The `n` item types from byte `at` on.
fn read_types(b: &[u8], at: usize, n: usize) -> (r: Vec<DatafileItemType>)
    requires
        at + 12 * n <= b@.len(),
    ensures
        r@ == types_at(b@, at as int, n as int),
{
    let len = b.len();
    let mut r: Vec<DatafileItemType> = Vec::new();
    let mut k: usize = 0;
    let mut pos: usize = at;
    while k < n
        invariant
            at + 12 * n <= b@.len(),
            k <= n,
            len == b@.len(),
            pos == at + 12 * k,
            r@ == types_at(b@, at as int, k as int),
        decreases n - k,
    {
        r.push(DatafileItemType { type_id: le_i32(b, pos), start: le_i32(b, pos + 4), num: le_i32(b, pos + 8) });
        k = k + 1;
        pos = pos + 12;
        assert(r@ =~= types_at(b@, at as int, k as int));
    }
    r
}

impl DatafileReader {
    /// Reads the datafile `bytes`: its headers, its tables, checked; its
    /// data stays in the file, after the tables.
    pub fn read(bytes: &[u8]) -> (r: Result<DatafileReader, ReadError>)
        requires
            !(read_outcome(bytes@) == Ok::<TableCheck, ReadError>(TableCheck::Overflow)),
        ensures
            read_result(bytes@, r),
    {
        DatafileReader::read_impl(bytes).0
    }

    /// Reads the datafile `bytes` as `read` does; nothing where checking
    /// its tables would run out of range.
    pub fn read_checked(bytes: &[u8]) -> (r: Option<Result<DatafileReader, ReadError>>)
        ensures
            (r is None) == (read_outcome(bytes@) == Ok::<TableCheck, ReadError>(TableCheck::Overflow)),
            r matches Some(x) ==> read_result(bytes@, x),
    {
        let (r, overflow) = DatafileReader::read_impl(bytes);
        if overflow {
            None
        } else {
            Some(r)
        }
    }

    /// Reads the datafile `bytes`, and tells whether checking its tables
    /// ran out of range.
    fn read_impl(bytes: &[u8]) -> (r: (Result<DatafileReader, ReadError>, bool))
        ensures
            r.1 == (read_outcome(bytes@) == Ok::<TableCheck, ReadError>(TableCheck::Overflow)),
            !r.1 ==> read_result(bytes@, r.0),
    {
        if bytes.len() < 8 {
            return (Err(ReadError::UnexpectedEnd), false);
        }
        let header_ver = DatafileHeaderVersion {
            magic: [bytes[0], bytes[1], bytes[2], bytes[3]],
            version: le_i32(bytes, 4),
        };
        assert(header_ver == version_header_of(bytes@));
        match header_ver.check() {
            Ok(()) => {},
            Err(e) => {
                return (Err(ReadError::Df(e)), false);
            },
        }
        if bytes.len() < 36 {
            return (Err(ReadError::UnexpectedEnd), false);
        }
        let header = DatafileHeader {
            _size: le_i32(bytes, 8),
            _swaplen: le_i32(bytes, 12),
            num_item_types: le_i32(bytes, 16),
            num_items: le_i32(bytes, 20),
            num_data: le_i32(bytes, 24),
            size_items: le_i32(bytes, 28),
            size_data: le_i32(bytes, 32),
        };
        assert(header == header_of(bytes@));
        match header.check() {
            Ok(()) => {},
            Err(e) => {
                return (Err(ReadError::Df(e)), false);
            },
        }
        let v4 = header_ver.version == DATAFILE_VERSION4;
        let nt = header.num_item_types as u64;
        let ni = header.num_items as u64;
        let nd = header.num_data as u64;
        let sizes_len: u64 = if v4 {
            4 * nd
        } else {
            0
        };
        let need: u64 = 12 * nt + 4 * ni + 4 * nd + sizes_len + header.size_items as u64;
        if 36 + need > bytes.len() as u64 {
            return (Err(ReadError::UnexpectedEnd), false);
        }
        let p_types: usize = 36;
        let p_items: usize = p_types + 12 * (nt as usize);
        let p_data: usize = p_items + 4 * (ni as usize);
        let p_sizes: usize = p_data + 4 * (nd as usize);
        let p_raw: usize = p_sizes + sizes_len as usize;
        let item_types = read_types(bytes, p_types, nt as usize);
        let item_offsets = read_i32s(bytes, p_items, ni as usize);
        let data_offsets = read_i32s(bytes, p_data, nd as usize);
        let uncomp_data_sizes = if v4 {
            Some(read_i32s(bytes, p_sizes, nd as usize))
        } else {
            None
        };
        let items_raw = read_i32s(bytes, p_raw, (header.size_items / 4) as usize);
        let types_ok = check_types(&item_types, header.num_items);
        if types_ok != TableCheck::Valid {
            return (Err(ReadError::Df(DatafileErr::Malformed)), types_ok == TableCheck::Overflow);
        }
        let items_ok = check_items(&item_offsets, &items_raw, header.size_items);
        if items_ok != TableCheck::Valid {
            return (Err(ReadError::Df(DatafileErr::Malformed)), items_ok == TableCheck::Overflow);
        }
        if !check_data(&data_offsets, &uncomp_data_sizes, header.size_data) {
            return (Err(ReadError::Df(DatafileErr::Malformed)), false);
        }
        proof {
            lemma_types_valid(item_types@, header.num_items, 0);
            lemma_start_sum_nonneg(item_types@, item_types@.len() as int);
            lemma_items_valid(item_offsets@, items_raw@, header.size_items, 0, 0);
        }
        if !check_type_ids(&item_types, &item_offsets, &items_raw, header.num_items) {
            return (Err(ReadError::Df(DatafileErr::Malformed)), false);
        }
        let data_offset: u64 = 36 + need;
        let r = DatafileReader {
            header_ver,
            header,
            item_types,
            item_offsets,
            data_offsets,
            uncomp_data_sizes,
            items_raw,
            data_offset,
        };
        (Ok(r), false)
    }
}

/// Checks that every item has the type of its run.
fn check_type_ids(types: &Vec<DatafileItemType>, offsets: &Vec<i32>, raw: &Vec<i32>, num_items: i32) -> (r: bool)
    requires
        offsets@.len() == num_items,
        types_check(types@, num_items, 0) == TableCheck::Valid,
        forall|j: int|
            #![trigger types@[j]]
            0 <= j < types@.len() ==> {
                &&& types@[j].num >= 0
                &&& types@[j].start == start_sum(types@, j)
            },
        start_sum(types@, types@.len() as int) == num_items,
        forall|k: int|
            0 <= k < offsets@.len() ==> {
                &&& #[trigger] offsets@[k] >= 0
                &&& offsets@[k] / 4 + 2 <= raw@.len()
            },
    ensures
        r == item_type_ids_ok(types@, offsets@, raw@),
{
    let mut i: usize = 0;
    while i < types.len()
        invariant
            i <= types@.len(),
            offsets@.len() == num_items,
            forall|j: int|
                #![trigger types@[j]]
                0 <= j < types@.len() ==> {
                    &&& types@[j].num >= 0
                    &&& types@[j].start == start_sum(types@, j)
                },
            start_sum(types@, types@.len() as int) == num_items,
            forall|k: int|
                0 <= k < offsets@.len() ==> {
                    &&& #[trigger] offsets@[k] >= 0
                    &&& offsets@[k] / 4 + 2 <= raw@.len()
                },
            forall|a: int, k: int|
                #![trigger types@[a], offsets@[k]]
                0 <= a < i && types@[a].start <= k < types@[a].start + types@[a].num ==> high16(raw@[offsets@[k] / 4])
                    == (types@[a].type_id as u16),
        decreases types.len() - i,
    {
        let t = types[i];
        proof {
            lemma_start_sum_mono(types@, i as int, i + 1);
            lemma_start_sum_mono(types@, i + 1, types@.len() as int);
            lemma_start_sum_nonneg(types@, i as int);
        }
        let end: usize = (t.start + t.num) as usize;
        let mut k: usize = t.start as usize;
        while k < end
            invariant
                i < types@.len(),
                t == types@[i as int],
                0 <= t.start <= k <= end,
                end == t.start + t.num,
                end <= offsets@.len(),
                forall|k2: int|
                    0 <= k2 < offsets@.len() ==> {
                        &&& #[trigger] offsets@[k2] >= 0
                        &&& offsets@[k2] / 4 + 2 <= raw@.len()
                    },
                forall|k2: int| t.start <= k2 < k ==> high16(raw@[#[trigger] offsets@[k2] / 4]) == (t.type_id as u16),
            decreases end - k,
        {
            let o = offsets[k];
            assert(o == offsets@[k as int]);
            let h = DatafileItemHeader { type_id__id: raw[(o / 4) as usize], size: 0 };
            if h.type_id() != t.type_id as u16 {
                proof {
                    assert(types@[i as int].start <= k < types@[i as int].start + types@[i as int].num);
                    assert(high16(raw@[offsets@[k as int] / 4]) != (types@[i as int].type_id as u16));
                }
                return false;
            }
            k = k + 1;
        }
        i = i + 1;
    }
    true
}

} // verus!
