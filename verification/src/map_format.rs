//! The items of a Teeworlds map file. An item is a run of 32-bit integers;
//! each kind of item begins a fixed number of integers into the data and is
//! present from a given version on.
use vstd::prelude::*;
use crate::packer::first_nul;
use crate::packer::lemma_first_nul_at;
use std::ops::Range;

verus! {

/// A map item: `len` integers, found `offset` integers into an item's data,
/// present where the data's first integer, its version, is at least
/// `version`, unless the item ignores the version.
pub trait MapItem: Sized {
    /// The integers of the item, in order.
    spec fn ints(&self) -> Seq<i32>;

    spec fn spec_version() -> i32;

    spec fn spec_offset() -> nat;

    spec fn spec_ignore_version() -> bool;

    spec fn spec_len() -> nat;

    /// Every item is small, and one that checks the version begins after it.
    proof fn lemma_layout()
        ensures
            Self::spec_offset() + Self::spec_len() <= 64,
            !Self::spec_ignore_version() ==> Self::spec_offset() >= 1,
    ;

    proof fn lemma_ints_len(&self)
        ensures
            self.ints().len() == Self::spec_len(),
    ;

    fn version() -> (r: i32)
        ensures
            r == Self::spec_version(),
    ;

    fn offset() -> (r: usize)
        ensures
            r == Self::spec_offset(),
    ;

    fn ignore_version() -> (r: bool)
        ensures
            r == Self::spec_ignore_version(),
    ;

    /// The number of integers of the item.
    fn len() -> (r: usize)
        ensures
            r == Self::spec_len(),
    ;

    /// The item made of `ints`.
    fn from_ints(ints: &[i32]) -> (r: Self)
        requires
            ints@.len() == Self::spec_len(),
        ensures
            r.ints() == ints@,
    ;
}

/// The item is missing from the data `slice`: the data is too short, or its
/// version is older than the item.
pub open spec fn item_missing<T: MapItem>(slice: Seq<i32>) -> bool {
    ||| slice.len() < T::spec_offset() + T::spec_len()
    ||| (!T::spec_ignore_version() && slice[0] < T::spec_version())
}

/// The integers of the item in the data `slice`.
pub open spec fn item_ints<T: MapItem>(slice: Seq<i32>) -> Seq<i32> {
    slice.subrange(T::spec_offset() as int, (T::spec_offset() + T::spec_len()) as int)
}

/// The integers of the data `slice` after the item.
pub open spec fn item_rest<T: MapItem>(slice: Seq<i32>) -> Seq<i32> {
    slice.subrange((T::spec_offset() + T::spec_len()) as int, slice.len() as int)
}

/// Reading an item out of an item's data.
pub trait MapItemExt: MapItem {
    /// The number of integers up to the end of the item.
    fn sum_len() -> (r: usize)
        ensures
            r == Self::spec_offset() + Self::spec_len(),
    ;

    /// The item in `slice`, unless it is missing.
    fn from_slice(slice: &[i32]) -> (r: Option<Self>)
        ensures
            r is None <==> item_missing::<Self>(slice@),
            r matches Some(item) ==> item.ints() == item_ints::<Self>(slice@),
    ;

    /// The item in `slice` and the integers after it, unless it is missing.
    fn from_slice_rest(slice: &[i32]) -> (r: Option<(Self, &[i32])>)
        ensures
            r is None <==> item_missing::<Self>(slice@),
            r matches Some((item, rest)) ==> {
                &&& item.ints() == item_ints::<Self>(slice@)
                &&& rest@ == item_rest::<Self>(slice@)
            },
    ;
}

impl<T: MapItem> MapItemExt for T {
    fn sum_len() -> (r: usize) {
        proof {
            T::lemma_layout();
        }
        T::offset() + T::len()
    }

    fn from_slice(slice: &[i32]) -> (r: Option<T>) {
        match T::from_slice_rest(slice) {
            Some((item, _rest)) => Some(item),
            None => None,
        }
    }

    fn from_slice_rest(slice: &[i32]) -> (r: Option<(T, &[i32])>) {
        proof {
            T::lemma_layout();
        }
        if slice.len() < T::sum_len() {
            return None;
        }
        if !T::ignore_version() && slice[0] < T::version() {
            return None;
        }
        let (_head, result) = slice.split_at(T::offset());
        let (item, rest) = result.split_at(T::len());
        Some((T::from_ints(item), rest))
    }
}

// ---------------------------------------------------------------------------
// Names stored as integers.

/// Byte `k` of `x`, most significant first, as the map format stores it:
/// offset by 0x80.
pub open spec fn stored_byte(x: i32, k: int) -> u8 {
    let b: i32 = if k == 0 {
        (x >> 24u32) & 0xff
    } else if k == 1 {
        (x >> 16u32) & 0xff
    } else if k == 2 {
        (x >> 8u32) & 0xff
    } else {
        x & 0xff
    };
    ((b + 0x80) % 0x100) as u8
}

/// The bytes the map format stores for `ints`, four for each.
pub open spec fn stored_bytes(ints: Seq<i32>) -> Seq<u8> {
    Seq::new(4 * ints.len(), |j: int| stored_byte(ints[j / 4], j % 4))
}

/// The bytes of a name stored in `ints`: the last one is always NUL.
pub open spec fn stored_name(ints: Seq<i32>) -> Seq<u8> {
    stored_bytes(ints).update(4 * ints.len() - 1, 0u8)
}

proof fn lemma_byte_ranges(x: i32)
    by (bit_vector)
    ensures
        0 <= (x >> 24u32) & 0xff <= 0xff,
        0 <= (x >> 16u32) & 0xff <= 0xff,
        0 <= (x >> 8u32) & 0xff <= 0xff,
        0 <= x & 0xff <= 0xff,
{
}

fn offset_byte(v: i32) -> (r: u8)
    requires
        0 <= v <= 0xff,
    ensures
        r == ((v + 0x80) % 0x100) as u8,
{
    if v >= 0x80 {
        (v - 0x80) as u8
    } else {
        (v + 0x80) as u8
    }
}

/// Writes the bytes stored for `input` into `result`.
pub fn i32s_to_bytes(result: &mut [u8], input: &[i32])
    requires
        old(result)@.len() == 4 * input@.len(),
    ensures
        final(result)@ == stored_bytes(input@),
{
    let n = result.len();
    let mut i: usize = 0;
    while i < input.len()
        invariant
            result@.len() == 4 * input@.len(),
            n == result@.len(),
            0 <= i <= input@.len(),
            forall|j: int| 0 <= j < 4 * i ==> #[trigger] result@[j] == stored_byte(input@[j / 4], j % 4),
        decreases input.len() - i,
    {
        let x = input[i];
        proof {
            lemma_byte_ranges(x);
        }
        let k = 4 * i;
        result[k] = offset_byte((x >> 24u32) & 0xff);
        result[k + 1] = offset_byte((x >> 16u32) & 0xff);
        result[k + 2] = offset_byte((x >> 8u32) & 0xff);
        result[k + 3] = offset_byte(x & 0xff);
        assert forall|j: int| 0 <= j < 4 * (i + 1) implies #[trigger] result@[j] == stored_byte(input@[j / 4], j % 4) by {
            if j >= 4 * i {
                assert(j / 4 == i);
            }
        }
        i += 1;
    }
    assert(result@ =~= stored_bytes(input@));
}

/// The bytes of `bytes` up to its first NUL byte.
pub fn bytes_to_string(bytes: &[u8]) -> (r: &[u8])
    ensures
        r@ == (match first_nul(bytes@) {
            Some(i) => bytes@.subrange(0, i),
            None => bytes@,
        }),
{
    let mut i: usize = 0;
    while i < bytes.len()
        invariant
            0 <= i <= bytes@.len(),
            forall|j: int| 0 <= j < i ==> bytes@[j] != 0,
        decreases bytes.len() - i,
    {
        if bytes[i] == 0 {
            proof {
                lemma_first_nul_at(bytes@, i as int);
            }
            let (head, _tail) = bytes.split_at(i);
            return head;
        }
        i += 1;
    }
    assert(!exists|j: int| 0 <= j < bytes@.len() && bytes@[j] == 0);
    bytes
}

/// A fixed-point number with 10 fractional bits.
#[derive(Clone, Copy)]
pub struct Fixed22_10 {
    value: i32,
}

/// The version field that leads every map item.
#[derive(Clone, Copy)]
pub struct MapItemCommonV0 {
    pub version: i32,
}

impl MapItem for MapItemCommonV0 {
    open spec fn ints(&self) -> Seq<i32> {
        seq![self.version]
    }

    open spec fn spec_version() -> i32 {
        0
    }

    open spec fn spec_offset() -> nat {
        0
    }

    open spec fn spec_ignore_version() -> bool {
        true
    }

    open spec fn spec_len() -> nat {
        1
    }

    proof fn lemma_layout() {
    }

    proof fn lemma_ints_len(&self) {
    }

    fn version() -> (r: i32) {
        0
    }

    fn offset() -> (r: usize) {
        0
    }

    fn ignore_version() -> (r: bool) {
        true
    }

    fn len() -> (r: usize) {
        1
    }

    fn from_ints(ints: &[i32]) -> (r: MapItemCommonV0) {
        MapItemCommonV0 {
            version: ints[0],
        }
    }
}

/// The settings index that race maps add to the info item.
#[derive(Clone, Copy)]
pub struct MapItemInfoV1ExtraRace {
    pub settings: i32,
}

impl MapItem for MapItemInfoV1ExtraRace {
    open spec fn ints(&self) -> Seq<i32> {
        seq![self.settings]
    }

    open spec fn spec_version() -> i32 {
        1
    }

    open spec fn spec_offset() -> nat {
        5
    }

    open spec fn spec_ignore_version() -> bool {
        false
    }

    open spec fn spec_len() -> nat {
        1
    }

    proof fn lemma_layout() {
    }

    proof fn lemma_ints_len(&self) {
    }

    fn version() -> (r: i32) {
        1
    }

    fn offset() -> (r: usize) {
        5
    }

    fn ignore_version() -> (r: bool) {
        false
    }

    fn len() -> (r: usize) {
        1
    }

    fn from_ints(ints: &[i32]) -> (r: MapItemInfoV1ExtraRace) {
        MapItemInfoV1ExtraRace {
            settings: ints[0],
        }
    }
}

/// An envelope as old maps wrote it, with a single name integer.
#[derive(Clone, Copy)]
pub struct MapItemEnvelopeV1Legacy {
    pub channels: i32,
    pub start_points: i32,
    pub num_points: i32,
    pub _name: i32,
}

impl MapItem for MapItemEnvelopeV1Legacy {
    open spec fn ints(&self) -> Seq<i32> {
        seq![self.channels, self.start_points, self.num_points, self._name]
    }

    open spec fn spec_version() -> i32 {
        1
    }

    open spec fn spec_offset() -> nat {
        1
    }

    open spec fn spec_ignore_version() -> bool {
        false
    }

    open spec fn spec_len() -> nat {
        4
    }

    proof fn lemma_layout() {
    }

    proof fn lemma_ints_len(&self) {
    }

    fn version() -> (r: i32) {
        1
    }

    fn offset() -> (r: usize) {
        1
    }

    fn ignore_version() -> (r: bool) {
        false
    }

    fn len() -> (r: usize) {
        4
    }

    fn from_ints(ints: &[i32]) -> (r: MapItemEnvelopeV1Legacy) {
        MapItemEnvelopeV1Legacy {
            channels: ints[0],
            start_points: ints[1],
            num_points: ints[2],
            _name: ints[3],
        }
    }
}

/// The version field that leads every layer.
#[derive(Clone, Copy)]
pub struct MapItemLayerV1CommonV0 {
    pub version: i32,
}

impl MapItem for MapItemLayerV1CommonV0 {
    open spec fn ints(&self) -> Seq<i32> {
        seq![self.version]
    }

    open spec fn spec_version() -> i32 {
        0
    }

    open spec fn spec_offset() -> nat {
        0
    }

    open spec fn spec_ignore_version() -> bool {
        true
    }

    open spec fn spec_len() -> nat {
        1
    }

    proof fn lemma_layout() {
    }

    proof fn lemma_ints_len(&self) {
    }

    fn version() -> (r: i32) {
        0
    }

    fn offset() -> (r: usize) {
        0
    }

    fn ignore_version() -> (r: bool) {
        true
    }

    fn len() -> (r: usize) {
        1
    }

    fn from_ints(ints: &[i32]) -> (r: MapItemLayerV1CommonV0) {
        MapItemLayerV1CommonV0 {
            version: ints[0],
        }
    }
}

/// The version item.
#[derive(Clone, Copy)]
pub struct MapItemVersionV1;

impl MapItem for MapItemVersionV1 {
    open spec fn ints(&self) -> Seq<i32> {
        Seq::empty()
    }

    open spec fn spec_version() -> i32 {
        1
    }

    open spec fn spec_offset() -> nat {
        1
    }

    open spec fn spec_ignore_version() -> bool {
        false
    }

    open spec fn spec_len() -> nat {
        0
    }

    proof fn lemma_layout() {
    }

    proof fn lemma_ints_len(&self) {
    }

    fn version() -> (r: i32) {
        1
    }

    fn offset() -> (r: usize) {
        1
    }

    fn ignore_version() -> (r: bool) {
        false
    }

    fn len() -> (r: usize) {
        0
    }

    fn from_ints(ints: &[i32]) -> (r: MapItemVersionV1) {
        MapItemVersionV1
    }
}

/// The info item: data indices of its strings.
#[derive(Clone, Copy)]
pub struct MapItemInfoV1 {
    pub author: i32,
    pub map_version: i32,
    pub credits: i32,
    pub license: i32,
}

impl MapItem for MapItemInfoV1 {
    open spec fn ints(&self) -> Seq<i32> {
        seq![self.author, self.map_version, self.credits, self.license]
    }

    open spec fn spec_version() -> i32 {
        1
    }

    open spec fn spec_offset() -> nat {
        1
    }

    open spec fn spec_ignore_version() -> bool {
        false
    }

    open spec fn spec_len() -> nat {
        4
    }

    proof fn lemma_layout() {
    }

    proof fn lemma_ints_len(&self) {
    }

    fn version() -> (r: i32) {
        1
    }

    fn offset() -> (r: usize) {
        1
    }

    fn ignore_version() -> (r: bool) {
        false
    }

    fn len() -> (r: usize) {
        4
    }

    fn from_ints(ints: &[i32]) -> (r: MapItemInfoV1) {
        MapItemInfoV1 {
            author: ints[0],
            map_version: ints[1],
            credits: ints[2],
            license: ints[3],
        }
    }
}

/// An image.
#[derive(Clone, Copy)]
pub struct MapItemImageV1 {
    pub width: i32,
    pub height: i32,
    pub external: i32,
    pub name: i32,
    pub data: i32,
}

impl MapItem for MapItemImageV1 {
    open spec fn ints(&self) -> Seq<i32> {
        seq![self.width, self.height, self.external, self.name, self.data]
    }

    open spec fn spec_version() -> i32 {
        1
    }

    open spec fn spec_offset() -> nat {
        1
    }

    open spec fn spec_ignore_version() -> bool {
        false
    }

    open spec fn spec_len() -> nat {
        5
    }

    proof fn lemma_layout() {
    }

    proof fn lemma_ints_len(&self) {
    }

    fn version() -> (r: i32) {
        1
    }

    fn offset() -> (r: usize) {
        1
    }

    fn ignore_version() -> (r: bool) {
        false
    }

    fn len() -> (r: usize) {
        5
    }

    fn from_ints(ints: &[i32]) -> (r: MapItemImageV1) {
        MapItemImageV1 {
            width: ints[0],
            height: ints[1],
            external: ints[2],
            name: ints[3],
            data: ints[4],
        }
    }
}

/// What version 2 adds to an image.
#[derive(Clone, Copy)]
pub struct MapItemImageV2 {
    pub format: i32,
}

impl MapItem for MapItemImageV2 {
    open spec fn ints(&self) -> Seq<i32> {
        seq![self.format]
    }

    open spec fn spec_version() -> i32 {
        2
    }

    open spec fn spec_offset() -> nat {
        6
    }

    open spec fn spec_ignore_version() -> bool {
        false
    }

    open spec fn spec_len() -> nat {
        1
    }

    proof fn lemma_layout() {
    }

    proof fn lemma_ints_len(&self) {
    }

    fn version() -> (r: i32) {
        2
    }

    fn offset() -> (r: usize) {
        6
    }

    fn ignore_version() -> (r: bool) {
        false
    }

    fn len() -> (r: usize) {
        1
    }

    fn from_ints(ints: &[i32]) -> (r: MapItemImageV2) {
        MapItemImageV2 {
            format: ints[0],
        }
    }
}

/// An envelope.
#[derive(Clone, Copy)]
pub struct MapItemEnvelopeV1 {
    pub channels: i32,
    pub start_points: i32,
    pub num_points: i32,
    pub name: [i32; 8],
}

impl MapItem for MapItemEnvelopeV1 {
    open spec fn ints(&self) -> Seq<i32> {
        seq![self.channels, self.start_points, self.num_points] + self.name@
    }

    open spec fn spec_version() -> i32 {
        1
    }

    open spec fn spec_offset() -> nat {
        1
    }

    open spec fn spec_ignore_version() -> bool {
        false
    }

    open spec fn spec_len() -> nat {
        11
    }

    proof fn lemma_layout() {
    }

    proof fn lemma_ints_len(&self) {
    }

    fn version() -> (r: i32) {
        1
    }

    fn offset() -> (r: usize) {
        1
    }

    fn ignore_version() -> (r: bool) {
        false
    }

    fn len() -> (r: usize) {
        11
    }

    fn from_ints(ints: &[i32]) -> (r: MapItemEnvelopeV1) {
        MapItemEnvelopeV1 {
            channels: ints[0],
            start_points: ints[1],
            num_points: ints[2],
            name: [ints[3], ints[4], ints[5], ints[6], ints[7], ints[8], ints[9], ints[10]],
        }
    }
}

impl MapItemEnvelopeV1 {
    /// The name's bytes; the last one is always NUL.
    pub fn name_get(&self) -> (r: [u8; 32])
        ensures
            r@ == stored_name(self.name@),
    {
        let mut result = [0u8; 32];
        i32s_to_bytes(&mut result, &self.name);
        result[31] = 0;
        assert(result@ =~= stored_name(self.name@));
        result
    }
}

/// What version 2 adds to an envelope.
#[derive(Clone, Copy)]
pub struct MapItemEnvelopeV2 {
    pub synchronized: i32,
}

impl MapItem for MapItemEnvelopeV2 {
    open spec fn ints(&self) -> Seq<i32> {
        seq![self.synchronized]
    }

    open spec fn spec_version() -> i32 {
        2
    }

    open spec fn spec_offset() -> nat {
        12
    }

    open spec fn spec_ignore_version() -> bool {
        false
    }

    open spec fn spec_len() -> nat {
        1
    }

    proof fn lemma_layout() {
    }

    proof fn lemma_ints_len(&self) {
    }

    fn version() -> (r: i32) {
        2
    }

    fn offset() -> (r: usize) {
        12
    }

    fn ignore_version() -> (r: bool) {
        false
    }

    fn len() -> (r: usize) {
        1
    }

    fn from_ints(ints: &[i32]) -> (r: MapItemEnvelopeV2) {
        MapItemEnvelopeV2 {
            synchronized: ints[0],
        }
    }
}

/// A group of layers.
#[derive(Clone, Copy)]
pub struct MapItemGroupV1 {
    pub offset_x: i32,
    pub offset_y: i32,
    pub parallax_x: i32,
    pub parallax_y: i32,
    pub start_layer: i32,
    pub num_layers: i32,
}

impl MapItem for MapItemGroupV1 {
    open spec fn ints(&self) -> Seq<i32> {
        seq![self.offset_x, self.offset_y, self.parallax_x, self.parallax_y, self.start_layer, self.num_layers]
    }

    open spec fn spec_version() -> i32 {
        1
    }

    open spec fn spec_offset() -> nat {
        1
    }

    open spec fn spec_ignore_version() -> bool {
        false
    }

    open spec fn spec_len() -> nat {
        6
    }

    proof fn lemma_layout() {
    }

    proof fn lemma_ints_len(&self) {
    }

    fn version() -> (r: i32) {
        1
    }

    fn offset() -> (r: usize) {
        1
    }

    fn ignore_version() -> (r: bool) {
        false
    }

    fn len() -> (r: usize) {
        6
    }

    fn from_ints(ints: &[i32]) -> (r: MapItemGroupV1) {
        MapItemGroupV1 {
            offset_x: ints[0],
            offset_y: ints[1],
            parallax_x: ints[2],
            parallax_y: ints[3],
            start_layer: ints[4],
            num_layers: ints[5],
        }
    }
}

/// What version 2 adds to a group: its clipping.
#[derive(Clone, Copy)]
pub struct MapItemGroupV2 {
    pub use_clipping: i32,
    pub clip_x: i32,
    pub clip_y: i32,
    pub clip_w: i32,
    pub clip_h: i32,
}

impl MapItem for MapItemGroupV2 {
    open spec fn ints(&self) -> Seq<i32> {
        seq![self.use_clipping, self.clip_x, self.clip_y, self.clip_w, self.clip_h]
    }

    open spec fn spec_version() -> i32 {
        2
    }

    open spec fn spec_offset() -> nat {
        7
    }

    open spec fn spec_ignore_version() -> bool {
        false
    }

    open spec fn spec_len() -> nat {
        5
    }

    proof fn lemma_layout() {
    }

    proof fn lemma_ints_len(&self) {
    }

    fn version() -> (r: i32) {
        2
    }

    fn offset() -> (r: usize) {
        7
    }

    fn ignore_version() -> (r: bool) {
        false
    }

    fn len() -> (r: usize) {
        5
    }

    fn from_ints(ints: &[i32]) -> (r: MapItemGroupV2) {
        MapItemGroupV2 {
            use_clipping: ints[0],
            clip_x: ints[1],
            clip_y: ints[2],
            clip_w: ints[3],
            clip_h: ints[4],
        }
    }
}

/// What version 3 adds to a group: its name.
#[derive(Clone, Copy)]
pub struct MapItemGroupV3 {
    pub name: [i32; 3],
}

impl MapItem for MapItemGroupV3 {
    open spec fn ints(&self) -> Seq<i32> {
        self.name@
    }

    open spec fn spec_version() -> i32 {
        3
    }

    open spec fn spec_offset() -> nat {
        12
    }

    open spec fn spec_ignore_version() -> bool {
        false
    }

    open spec fn spec_len() -> nat {
        3
    }

    proof fn lemma_layout() {
    }

    proof fn lemma_ints_len(&self) {
    }

    fn version() -> (r: i32) {
        3
    }

    fn offset() -> (r: usize) {
        12
    }

    fn ignore_version() -> (r: bool) {
        false
    }

    fn len() -> (r: usize) {
        3
    }

    fn from_ints(ints: &[i32]) -> (r: MapItemGroupV3) {
        MapItemGroupV3 {
            name: [ints[0], ints[1], ints[2]],
        }
    }
}

impl MapItemGroupV3 {
    /// The name's bytes; the last one is always NUL.
    pub fn name_get(&self) -> (r: [u8; 12])
        ensures
            r@ == stored_name(self.name@),
    {
        let mut result = [0u8; 12];
        i32s_to_bytes(&mut result, &self.name);
        result[11] = 0;
        assert(result@ =~= stored_name(self.name@));
        result
    }
}

/// A layer: its type and flags. Its version field is not checked: Teeworlds itself leaves it unset.
#[derive(Clone, Copy)]
pub struct MapItemLayerV1 {
    pub type_: i32,
    pub flags: i32,
}

impl MapItem for MapItemLayerV1 {
    open spec fn ints(&self) -> Seq<i32> {
        seq![self.type_, self.flags]
    }

    open spec fn spec_version() -> i32 {
        1
    }

    open spec fn spec_offset() -> nat {
        1
    }

    open spec fn spec_ignore_version() -> bool {
        true
    }

    open spec fn spec_len() -> nat {
        2
    }

    proof fn lemma_layout() {
    }

    proof fn lemma_ints_len(&self) {
    }

    fn version() -> (r: i32) {
        1
    }

    fn offset() -> (r: usize) {
        1
    }

    fn ignore_version() -> (r: bool) {
        true
    }

    fn len() -> (r: usize) {
        2
    }

    fn from_ints(ints: &[i32]) -> (r: MapItemLayerV1) {
        MapItemLayerV1 {
            type_: ints[0],
            flags: ints[1],
        }
    }
}

/// A sound of a DDRace map.
#[derive(Clone, Copy)]
pub struct MapItemDdraceSoundV1 {
    pub external: i32,
    pub name: i32,
    pub data: i32,
    pub data_size: i32,
}

impl MapItem for MapItemDdraceSoundV1 {
    open spec fn ints(&self) -> Seq<i32> {
        seq![self.external, self.name, self.data, self.data_size]
    }

    open spec fn spec_version() -> i32 {
        1
    }

    open spec fn spec_offset() -> nat {
        1
    }

    open spec fn spec_ignore_version() -> bool {
        false
    }

    open spec fn spec_len() -> nat {
        4
    }

    proof fn lemma_layout() {
    }

    proof fn lemma_ints_len(&self) {
    }

    fn version() -> (r: i32) {
        1
    }

    fn offset() -> (r: usize) {
        1
    }

    fn ignore_version() -> (r: bool) {
        false
    }

    fn len() -> (r: usize) {
        4
    }

    fn from_ints(ints: &[i32]) -> (r: MapItemDdraceSoundV1) {
        MapItemDdraceSoundV1 {
            external: ints[0],
            name: ints[1],
            data: ints[2],
            data_size: ints[3],
        }
    }
}

/// A tile layer, version 1.
#[derive(Clone, Copy)]
pub struct MapItemLayerV1TilemapV1;

impl MapItem for MapItemLayerV1TilemapV1 {
    open spec fn ints(&self) -> Seq<i32> {
        Seq::empty()
    }

    open spec fn spec_version() -> i32 {
        1
    }

    open spec fn spec_offset() -> nat {
        1
    }

    open spec fn spec_ignore_version() -> bool {
        false
    }

    open spec fn spec_len() -> nat {
        0
    }

    proof fn lemma_layout() {
    }

    proof fn lemma_ints_len(&self) {
    }

    fn version() -> (r: i32) {
        1
    }

    fn offset() -> (r: usize) {
        1
    }

    fn ignore_version() -> (r: bool) {
        false
    }

    fn len() -> (r: usize) {
        0
    }

    fn from_ints(ints: &[i32]) -> (r: MapItemLayerV1TilemapV1) {
        MapItemLayerV1TilemapV1
    }
}

/// A tile layer.
#[derive(Clone, Copy)]
pub struct MapItemLayerV1TilemapV2 {
    pub width: i32,
    pub height: i32,
    pub flags: i32,
    pub color_red: i32,
    pub color_green: i32,
    pub color_blue: i32,
    pub color_alpha: i32,
    pub color_env: i32,
    pub color_env_offset: i32,
    pub image: i32,
    pub data: i32,
}

impl MapItem for MapItemLayerV1TilemapV2 {
    open spec fn ints(&self) -> Seq<i32> {
        seq![self.width, self.height, self.flags, self.color_red, self.color_green, self.color_blue, self.color_alpha, self.color_env, self.color_env_offset, self.image, self.data]
    }

    open spec fn spec_version() -> i32 {
        2
    }

    open spec fn spec_offset() -> nat {
        1
    }

    open spec fn spec_ignore_version() -> bool {
        false
    }

    open spec fn spec_len() -> nat {
        11
    }

    proof fn lemma_layout() {
    }

    proof fn lemma_ints_len(&self) {
    }

    fn version() -> (r: i32) {
        2
    }

    fn offset() -> (r: usize) {
        1
    }

    fn ignore_version() -> (r: bool) {
        false
    }

    fn len() -> (r: usize) {
        11
    }

    fn from_ints(ints: &[i32]) -> (r: MapItemLayerV1TilemapV2) {
        MapItemLayerV1TilemapV2 {
            width: ints[0],
            height: ints[1],
            flags: ints[2],
            color_red: ints[3],
            color_green: ints[4],
            color_blue: ints[5],
            color_alpha: ints[6],
            color_env: ints[7],
            color_env_offset: ints[8],
            image: ints[9],
            data: ints[10],
        }
    }
}

/// What version 3 adds to a tile layer: its name.
#[derive(Clone, Copy)]
pub struct MapItemLayerV1TilemapV3 {
    pub name: [i32; 3],
}

impl MapItem for MapItemLayerV1TilemapV3 {
    open spec fn ints(&self) -> Seq<i32> {
        self.name@
    }

    open spec fn spec_version() -> i32 {
        3
    }

    open spec fn spec_offset() -> nat {
        12
    }

    open spec fn spec_ignore_version() -> bool {
        false
    }

    open spec fn spec_len() -> nat {
        3
    }

    proof fn lemma_layout() {
    }

    proof fn lemma_ints_len(&self) {
    }

    fn version() -> (r: i32) {
        3
    }

    fn offset() -> (r: usize) {
        12
    }

    fn ignore_version() -> (r: bool) {
        false
    }

    fn len() -> (r: usize) {
        3
    }

    fn from_ints(ints: &[i32]) -> (r: MapItemLayerV1TilemapV3) {
        MapItemLayerV1TilemapV3 {
            name: [ints[0], ints[1], ints[2]],
        }
    }
}

impl MapItemLayerV1TilemapV3 {
    /// The name's bytes; the last one is always NUL.
    pub fn name_get(&self) -> (r: [u8; 12])
        ensures
            r@ == stored_name(self.name@),
    {
        let mut result = [0u8; 12];
        i32s_to_bytes(&mut result, &self.name);
        result[11] = 0;
        assert(result@ =~= stored_name(self.name@));
        result
    }
}

/// A quad layer.
#[derive(Clone, Copy)]
pub struct MapItemLayerV1QuadsV1 {
    pub num_quads: i32,
    pub data: i32,
    pub image: i32,
}

impl MapItem for MapItemLayerV1QuadsV1 {
    open spec fn ints(&self) -> Seq<i32> {
        seq![self.num_quads, self.data, self.image]
    }

    open spec fn spec_version() -> i32 {
        1
    }

    open spec fn spec_offset() -> nat {
        1
    }

    open spec fn spec_ignore_version() -> bool {
        false
    }

    open spec fn spec_len() -> nat {
        3
    }

    proof fn lemma_layout() {
    }

    proof fn lemma_ints_len(&self) {
    }

    fn version() -> (r: i32) {
        1
    }

    fn offset() -> (r: usize) {
        1
    }

    fn ignore_version() -> (r: bool) {
        false
    }

    fn len() -> (r: usize) {
        3
    }

    fn from_ints(ints: &[i32]) -> (r: MapItemLayerV1QuadsV1) {
        MapItemLayerV1QuadsV1 {
            num_quads: ints[0],
            data: ints[1],
            image: ints[2],
        }
    }
}

/// What version 2 adds to a quad layer: its name.
#[derive(Clone, Copy)]
pub struct MapItemLayerV1QuadsV2 {
    pub name: [i32; 3],
}

impl MapItem for MapItemLayerV1QuadsV2 {
    open spec fn ints(&self) -> Seq<i32> {
        self.name@
    }

    open spec fn spec_version() -> i32 {
        2
    }

    open spec fn spec_offset() -> nat {
        4
    }

    open spec fn spec_ignore_version() -> bool {
        false
    }

    open spec fn spec_len() -> nat {
        3
    }

    proof fn lemma_layout() {
    }

    proof fn lemma_ints_len(&self) {
    }

    fn version() -> (r: i32) {
        2
    }

    fn offset() -> (r: usize) {
        4
    }

    fn ignore_version() -> (r: bool) {
        false
    }

    fn len() -> (r: usize) {
        3
    }

    fn from_ints(ints: &[i32]) -> (r: MapItemLayerV1QuadsV2) {
        MapItemLayerV1QuadsV2 {
            name: [ints[0], ints[1], ints[2]],
        }
    }
}

impl MapItemLayerV1QuadsV2 {
    /// The name's bytes; the last one is always NUL.
    pub fn name_get(&self) -> (r: [u8; 12])
        ensures
            r@ == stored_name(self.name@),
    {
        let mut result = [0u8; 12];
        i32s_to_bytes(&mut result, &self.name);
        result[11] = 0;
        assert(result@ =~= stored_name(self.name@));
        result
    }
}

/// A sound layer, version 1.
#[derive(Clone, Copy)]
pub struct MapItemLayerV1DdraceSoundsV1;

impl MapItem for MapItemLayerV1DdraceSoundsV1 {
    open spec fn ints(&self) -> Seq<i32> {
        Seq::empty()
    }

    open spec fn spec_version() -> i32 {
        1
    }

    open spec fn spec_offset() -> nat {
        1
    }

    open spec fn spec_ignore_version() -> bool {
        false
    }

    open spec fn spec_len() -> nat {
        0
    }

    proof fn lemma_layout() {
    }

    proof fn lemma_ints_len(&self) {
    }

    fn version() -> (r: i32) {
        1
    }

    fn offset() -> (r: usize) {
        1
    }

    fn ignore_version() -> (r: bool) {
        false
    }

    fn len() -> (r: usize) {
        0
    }

    fn from_ints(ints: &[i32]) -> (r: MapItemLayerV1DdraceSoundsV1) {
        MapItemLayerV1DdraceSoundsV1
    }
}

/// A sound layer.
#[derive(Clone, Copy)]
pub struct MapItemLayerV1DdraceSoundsV2 {
    pub num_sources: i32,
    pub data: i32,
    pub sound: i32,
    pub name: [i32; 3],
}

impl MapItem for MapItemLayerV1DdraceSoundsV2 {
    open spec fn ints(&self) -> Seq<i32> {
        seq![self.num_sources, self.data, self.sound] + self.name@
    }

    open spec fn spec_version() -> i32 {
        2
    }

    open spec fn spec_offset() -> nat {
        1
    }

    open spec fn spec_ignore_version() -> bool {
        false
    }

    open spec fn spec_len() -> nat {
        6
    }

    proof fn lemma_layout() {
    }

    proof fn lemma_ints_len(&self) {
    }

    fn version() -> (r: i32) {
        2
    }

    fn offset() -> (r: usize) {
        1
    }

    fn ignore_version() -> (r: bool) {
        false
    }

    fn len() -> (r: usize) {
        6
    }

    fn from_ints(ints: &[i32]) -> (r: MapItemLayerV1DdraceSoundsV2) {
        MapItemLayerV1DdraceSoundsV2 {
            num_sources: ints[0],
            data: ints[1],
            sound: ints[2],
            name: [ints[3], ints[4], ints[5]],
        }
    }
}

impl MapItemLayerV1DdraceSoundsV2 {
    /// The name's bytes; the last one is always NUL.
    pub fn name_get(&self) -> (r: [u8; 12])
        ensures
            r@ == stored_name(self.name@),
    {
        let mut result = [0u8; 12];
        i32s_to_bytes(&mut result, &self.name);
        result[11] = 0;
        assert(result@ =~= stored_name(self.name@));
        result
    }
}

// ---------------------------------------------------------------------------
// Envelope points.

/// A point of an envelope, a fixed number of integers; a run of them forms
/// the envelope-points item of envelopes of some versions.
pub trait Envpoint: Sized {
    /// The integers of the point, in order.
    spec fn ints(&self) -> Seq<i32>;

    spec fn spec_len() -> nat;

    /// The first envelope version with points of this kind.
    spec fn first_version() -> i32;

    /// The first envelope version after them.
    spec fn end_version() -> i32;

    proof fn lemma_layout()
        ensures
            1 <= Self::spec_len() <= 64,
    ;

    proof fn lemma_ints_len(&self)
        ensures
            self.ints().len() == Self::spec_len(),
    ;

    /// The envelope versions whose points are of this kind.
    fn envelope_version() -> (r: Range<i32>)
        ensures
            r.start == Self::first_version(),
            r.end == Self::end_version(),
    ;

    /// The number of integers of a point.
    fn len() -> (r: usize)
        ensures
            r == Self::spec_len(),
    ;

    /// The point made of `ints`.
    fn from_ints(ints: &[i32]) -> (r: Self)
        requires
            ints@.len() == Self::spec_len(),
        ensures
            r.ints() == ints@,
    ;
}

/// The integers of the points `points`, one after the other.
pub open spec fn envpoints_ints<T: Envpoint>(points: Seq<T>) -> Seq<i32>
    decreases points.len(),
{
    if points.len() == 0 {
        Seq::empty()
    } else {
        envpoints_ints(points.drop_last()) + points.last().ints()
    }
}

/// Reading envelope points.
pub trait EnvpointExt: Envpoint {
    /// The points in `slice`, for an envelope of version `envelope_version`:
    /// none where points of this kind do not belong to that version or the
    /// integers do not divide into whole points.
    fn from_slice(slice: &[i32], envelope_version: i32) -> (r: Option<Vec<Self>>)
        ensures
            r is None <==> !(Self::first_version() <= envelope_version < Self::end_version())
                || slice@.len() % Self::spec_len() != 0,
            r matches Some(points) ==> envpoints_ints(points@) == slice@,
    ;
}

impl<T: Envpoint> EnvpointExt for T {
    fn from_slice(slice: &[i32], envelope_version: i32) -> (r: Option<Vec<T>>) {
        proof {
            T::lemma_layout();
        }
        let versions = T::envelope_version();
        if !(versions.start <= envelope_version && envelope_version < versions.end) {
            return None;
        }
        let l = T::len();
        if slice.len() % l != 0 {
            return None;
        }
        let mut points: Vec<T> = Vec::new();
        let mut pos: usize = 0;
        while slice.len() - pos >= l
            invariant
                l == T::spec_len(),
                1 <= l <= 64,
                pos <= slice@.len(),
                slice@.len() as int % (l as int) == 0,
                pos as int % (l as int) == 0,
                envpoints_ints(points@) == slice@.subrange(0, pos as int),
            decreases slice.len() - pos,
        {
            let (_head, tail) = slice.split_at(pos);
            let (chunk, _rest) = tail.split_at(l);
            let point = T::from_ints(chunk);
            let ghost before = points@;
            points.push(point);
            proof {
                assert(points@.drop_last() =~= before);
                assert(slice@.subrange(0, pos as int) + chunk@ =~= slice@.subrange(0, pos + l));
                vstd::arithmetic::div_mod::lemma_mod_add_multiples_vanish(pos as int, l as int);
            }
            pos = pos + l;
        }
        proof {
            let d = slice@.len() - pos;
            vstd::arithmetic::div_mod::lemma_sub_mod_noop(slice@.len() as int, pos as int, l as int);
            vstd::arithmetic::div_mod::lemma_small_mod(d as nat, l as nat);
            assert(slice@.subrange(0, pos as int) =~= slice@);
        }
        Some(points)
    }
}

/// A point of an envelope before version 3: its time, curve type and four
/// values.
#[derive(Clone, Copy)]
pub struct MapItemEnvpointV1 {
    time: i32,
    curve_type: i32,
    values: [Fixed22_10; 4],
}

/// A point of an envelope of version 3: a version 1 point and its tangents.
#[derive(Clone, Copy)]
pub struct MapItemEnvpointV2 {
    v1: MapItemEnvpointV1,
    in_tangent_dx: [Fixed22_10; 4],
    in_tangent_dy: [Fixed22_10; 4],
    out_tangent_dx: [Fixed22_10; 4],
    out_tangent_dy: [Fixed22_10; 4],
}

/// The integers of four fixed-point numbers.
pub closed spec fn fixed_ints(f: [Fixed22_10; 4]) -> Seq<i32> {
    seq![f[0].value, f[1].value, f[2].value, f[3].value]
}

impl Envpoint for MapItemEnvpointV1 {
    closed spec fn ints(&self) -> Seq<i32> {
        seq![self.time, self.curve_type] + fixed_ints(self.values)
    }

    open spec fn spec_len() -> nat {
        6
    }

    open spec fn first_version() -> i32 {
        1
    }

    open spec fn end_version() -> i32 {
        3
    }

    proof fn lemma_layout() {
    }

    proof fn lemma_ints_len(&self) {
    }

    fn envelope_version() -> (r: Range<i32>) {
        1..2 + 1
    }

    fn len() -> (r: usize) {
        6
    }

    fn from_ints(ints: &[i32]) -> (r: MapItemEnvpointV1) {
        let r = MapItemEnvpointV1 {
            time: ints[0],
            curve_type: ints[1],
            values: [Fixed22_10 { value: ints[2] }, Fixed22_10 { value: ints[3] }, Fixed22_10 { value: ints[4] }, Fixed22_10 { value: ints[5] }],
        };
        assert(r.ints() =~= ints@);
        r
    }
}

impl Envpoint for MapItemEnvpointV2 {
    closed spec fn ints(&self) -> Seq<i32> {
        self.v1.ints() + fixed_ints(self.in_tangent_dx) + fixed_ints(self.in_tangent_dy)
            + fixed_ints(self.out_tangent_dx) + fixed_ints(self.out_tangent_dy)
    }

    open spec fn spec_len() -> nat {
        22
    }

    open spec fn first_version() -> i32 {
        3
    }

    open spec fn end_version() -> i32 {
        4
    }

    proof fn lemma_layout() {
    }

    proof fn lemma_ints_len(&self) {
    }

    fn envelope_version() -> (r: Range<i32>) {
        3..3 + 1
    }

    fn len() -> (r: usize) {
        22
    }

    fn from_ints(ints: &[i32]) -> (r: MapItemEnvpointV2) {
        let v1 = MapItemEnvpointV1 {
            time: ints[0],
            curve_type: ints[1],
            values: [Fixed22_10 { value: ints[2] }, Fixed22_10 { value: ints[3] }, Fixed22_10 { value: ints[4] }, Fixed22_10 { value: ints[5] }],
        };
        let r = MapItemEnvpointV2 {
            v1: v1,
            in_tangent_dx: [Fixed22_10 { value: ints[6] }, Fixed22_10 { value: ints[7] }, Fixed22_10 { value: ints[8] }, Fixed22_10 { value: ints[9] }],
            in_tangent_dy: [Fixed22_10 { value: ints[10] }, Fixed22_10 { value: ints[11] }, Fixed22_10 { value: ints[12] }, Fixed22_10 { value: ints[13] }],
            out_tangent_dx: [Fixed22_10 { value: ints[14] }, Fixed22_10 { value: ints[15] }, Fixed22_10 { value: ints[16] }, Fixed22_10 { value: ints[17] }],
            out_tangent_dy: [Fixed22_10 { value: ints[18] }, Fixed22_10 { value: ints[19] }, Fixed22_10 { value: ints[20] }, Fixed22_10 { value: ints[21] }],
        };
        assert(r.ints() =~= ints@);
        r
    }
}

// ---------------------------------------------------------------------------
// Layers.

pub const LAYERFLAG_DETAIL: u32 = 1;
pub const LAYERFLAGS_ALL: u32 = 1;

pub const TILELAYERFLAG_GAME: u32 = 1;
pub const TILELAYERFLAG_TELEPORT: u32 = 2;
pub const TILELAYERFLAG_SPEEDUP: u32 = 4;
pub const TILELAYERFLAG_FRONT: u32 = 8;
pub const TILELAYERFLAG_SWITCH: u32 = 16;
pub const TILELAYERFLAG_TUNE: u32 = 32;

pub const MAP_ITEMTYPE_LAYER_V1_DDRACE_SOUNDS_LEGACY: i32 = 9;

pub const MAP_ITEMTYPE_VERSION: u16 = 0;
pub const MAP_ITEMTYPE_INFO: u16 = 1;
pub const MAP_ITEMTYPE_IMAGE: u16 = 2;
pub const MAP_ITEMTYPE_ENVELOPE: u16 = 3;
pub const MAP_ITEMTYPE_GROUP: u16 = 4;
pub const MAP_ITEMTYPE_LAYER: u16 = 5;
pub const MAP_ITEMTYPE_ENVPOINTS: u16 = 6;
pub const MAP_ITEMTYPE_DDRACE_SOUND: u16 = 7;

pub const MAP_ITEMTYPE_LAYER_V1_TILEMAP: i32 = 2;
pub const MAP_ITEMTYPE_LAYER_V1_QUADS: i32 = 3;
pub const MAP_ITEMTYPE_LAYER_V1_DDRACE_SOUNDS: i32 = 10;

/// The index of the extra data of a race or DDRace tile layer, which follows
/// the tile layer item.
#[derive(Clone, Copy)]
pub struct MapItemLayerV1TilemapExtraRace {
    pub data: i32,
}

/// Where the extra data index of a tile layer of `version` with `flags`
/// lies: after the tile layer item, at the place of its kind.
pub open spec fn extra_race_offset(version: i32, flags: u32) -> Option<nat> {
    let base: nat = if version == 2 {
        12
    } else {
        15
    };
    if version != 2 && version != 3 {
        None
    } else if flags == TILELAYERFLAG_TELEPORT {
        Some(base)
    } else if flags == TILELAYERFLAG_SPEEDUP {
        Some(base + 1)
    } else if flags == TILELAYERFLAG_FRONT {
        Some(base + 2)
    } else if flags == TILELAYERFLAG_SWITCH {
        Some(base + 3)
    } else if flags == TILELAYERFLAG_TUNE {
        Some(base + 4)
    } else {
        None
    }
}

impl MapItemLayerV1TilemapExtraRace {
    pub fn offset(version: i32, flags: u32) -> (r: Option<usize>)
        ensures
            r == (match extra_race_offset(version, flags) {
                Some(o) => Some(o as usize),
                None => None,
            }),
    {
        let offset = match version {
            2 => MapItemLayerV1TilemapV2::sum_len(),
            3 => MapItemLayerV1TilemapV3::sum_len(),
            _ => return None,
        };
        let extra: usize = match flags {
            TILELAYERFLAG_TELEPORT => 0,
            TILELAYERFLAG_SPEEDUP => 1,
            TILELAYERFLAG_FRONT => 2,
            TILELAYERFLAG_SWITCH => 3,
            TILELAYERFLAG_TUNE => 4,
            _ => return None,
        };
        Some(offset + extra)
    }

    /// The extra data index in the tile layer data `slice`.
    pub fn from_slice(slice: &[i32], version: i32, flags: u32) -> (r: Option<MapItemLayerV1TilemapExtraRace>)
        ensures
            r == (match extra_race_offset(version, flags) {
                Some(o) => if o < slice@.len() {
                    Some(MapItemLayerV1TilemapExtraRace { data: slice@[o as int] })
                } else {
                    None
                },
                None => None,
            }),
    {
        let offset = match MapItemLayerV1TilemapExtraRace::offset(version, flags) {
            Some(o) => o,
            None => return None,
        };
        if slice.len() <= offset {
            return None;
        }
        Some(MapItemLayerV1TilemapExtraRace { data: slice[offset] })
    }
}

/// A tile of a tile layer.
#[derive(Clone, Copy, Debug, PartialEq, Eq, Structural, Hash, PartialOrd, Ord)]
pub struct Tile {
    pub index: u8,
    pub flags: u8,
    pub skip: u8,
    pub reserved: u8,
}

/// What is wrong with a map.
#[derive(Clone, Copy, Debug, PartialEq, Eq, Structural, Hash, PartialOrd, Ord)]
pub enum Error {
    InconsistentGameLayerDimensions,
    InvalidLayerFlags(u32),
    InvalidLayerTilemapFlags(u32),
    InvalidLayerType(i32),
    InvalidTilesLength(usize),
    InvalidVersion(i32),
    MalformedDdraceLayerSounds,
    MalformedGroup,
    MalformedImage,
    MalformedImageName,
    MalformedLayer,
    MalformedLayerQuads,
    MalformedLayerTilemap,
    MalformedVersion,
    MissingVersion,
    NoGameLayer,
    TooManyGameGroups,
    TooManyGameLayers,
}

} // verus!
