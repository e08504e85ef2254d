//! Reading the groups, layers, images and info of a Teeworlds map out of
//! the integers of its items.
use vstd::prelude::*;
use crate::map_format::MapItem;
use crate::map_format::MapItemExt;
use crate::map_format::MapItemGroupV1;
use crate::map_format::MapItemGroupV2;
use crate::map_format::MapItemGroupV3;
use crate::map_format::MapItemImageV1;
use crate::map_format::MapItemInfoV1;
use crate::map_format::MapItemInfoV1ExtraRace;
use crate::map_format::MapItemLayerV1CommonV0;
use crate::map_format::MapItemLayerV1TilemapExtraRace;
use crate::map_format::MapItemLayerV1TilemapV2;
use crate::map_format::MapItemLayerV1TilemapV3;
use crate::map_format::extra_race_offset;
use crate::map_format::MapItemLayerV1;
use crate::map_format::MapItemCommonV0;
use crate::map_format::Tile;
use crate::packer::first_nul;
use crate::packer::lemma_first_nul_at;
use crate::packer::no_nul;
use crate::map_format::MAP_ITEMTYPE_LAYER_V1_TILEMAP;
use crate::map_format::MAP_ITEMTYPE_LAYER_V1_QUADS;
use crate::map_format::MAP_ITEMTYPE_LAYER_V1_DDRACE_SOUNDS;
use crate::map_format::MAP_ITEMTYPE_LAYER_V1_DDRACE_SOUNDS_LEGACY;
use crate::map_format::MapItemLayerV1QuadsV1;
use crate::map_format::MapItemLayerV1QuadsV2;
use crate::map_format::MapItemLayerV1DdraceSoundsV2;
use crate::map_format::item_ints;
use crate::map_format::stored_name;
use std::ops::Range;

verus! {

// ---------------------------------------------------------------------------
// Errors.

/// A component of a layer's color.
#[derive(Clone, Copy, Debug, PartialEq, Eq, Structural)]
pub enum ColorComponent {
    Red,
    Green,
    Blue,
    Alpha,
}

/// What is wrong with a group item.
#[derive(Clone, Copy, Debug, PartialEq, Eq, Structural)]
pub enum GroupError {
    TooShort(usize),
    InvalidVersion(i32),
    InvalidStartLayerIndex(i32, i32),
    InvalidNumLayers(i32, i32),
}

// ---------------------------------------------------------------------------
// Indices.

/// The index `index` counted from the start of `indices`, where it falls
/// inside them.
pub open spec fn index_in(index: i32, indices: Range<usize>) -> Option<usize> {
    if 0 <= index && indices.start + index < indices.end {
        Some((indices.start + index) as usize)
    } else {
        None
    }
}

fn get_index_impl(index: i32, indices: Range<usize>) -> (r: Option<usize>)
    ensures
        r == index_in(index, indices),
{
    if index < 0 {
        return None;
    }
    let i = index as usize;
    if i >= indices.end || indices.start >= indices.end - i {
        return None;
    }
    Some(i + indices.start)
}

/// The index `index` inside `indices`, or, where `index` is -1, none.
pub open spec fn opt_index_in(index: i32, indices: Range<usize>) -> Option<Option<usize>> {
    if index == -1 {
        Some(None)
    } else {
        match index_in(index, indices) {
            Some(i) => Some(Some(i)),
            None => None,
        }
    }
}

fn get_index_opt(index: i32, indices: Range<usize>) -> (r: Option<Option<usize>>)
    ensures
        r == opt_index_in(index, indices),
{
    if index == -1 {
        return Some(None);
    }
    match get_index_impl(index, indices) {
        Some(i) => Some(Some(i)),
        None => None,
    }
}

// ---------------------------------------------------------------------------
// Items in an item's data.

/// The data `slice` holds a version older than the item.
pub open spec fn item_old<T: MapItem>(slice: Seq<i32>) -> bool {
    !T::spec_ignore_version() && slice.len() >= 1 && slice[0] < T::spec_version()
}

/// The data `slice` is of the item's version but too short to hold it.
pub open spec fn item_short<T: MapItem>(slice: Seq<i32>) -> bool {
    !item_old::<T>(slice) && slice.len() < T::spec_offset() + T::spec_len()
}

/// The item in `slice`: none where the data is older than the item, the
/// data's length where it is too short.
fn optional<T: MapItem>(slice: &[i32]) -> (r: Result<Option<T>, usize>)
    ensures
        item_old::<T>(slice@) ==> r == Ok::<Option<T>, usize>(None),
        item_short::<T>(slice@) ==> r == Err::<Option<T>, usize>(slice@.len() as usize),
        !item_old::<T>(slice@) && !item_short::<T>(slice@) ==> (r matches Ok(Some(item))
            && item.ints() == item_ints::<T>(slice@)),
{
    proof {
        T::lemma_layout();
    }
    if !T::ignore_version() && slice.len() >= 1 && slice[0] < T::version() {
        return Ok(None);
    }
    match T::from_slice(slice) {
        Some(item) => Ok(Some(item)),
        None => Err(slice.len()),
    }
}

// ---------------------------------------------------------------------------
// Groups.

/// The clipping rectangle of a group.
#[derive(Clone, Copy, Debug)]
pub struct Clipping {
    pub x: i32,
    pub y: i32,
    pub width: i32,
    pub height: i32,
}

/// A group of layers.
pub struct Group {
    pub offset_x: i32,
    pub offset_y: i32,
    pub parallax_x: i32,
    pub parallax_y: i32,
    pub layer_indices: Range<usize>,
    pub clipping: Option<Clipping>,
    pub name: [u8; 12],
}

/// Why the group data `raw` is refused, the layers being `layers`.
pub open spec fn group_error(raw: Seq<i32>, layers: Range<usize>) -> Option<GroupError> {
    if item_short::<MapItemGroupV1>(raw) {
        Some(GroupError::TooShort(raw.len() as usize))
    } else if item_old::<MapItemGroupV1>(raw) {
        Some(GroupError::InvalidVersion(raw[0]))
    } else if item_short::<MapItemGroupV2>(raw) || item_short::<MapItemGroupV3>(raw) {
        Some(GroupError::TooShort(raw.len() as usize))
    } else if raw[5] < 0 || layers.start + raw[5] > layers.end {
        Some(GroupError::InvalidStartLayerIndex(raw[5], raw[6]))
    } else if raw[6] < 0 || layers.start + raw[5] + raw[6] > layers.end {
        Some(GroupError::InvalidNumLayers(raw[5], raw[6]))
    } else {
        None
    }
}

/// `g` is the group read from the data `raw` that passed the checks.
pub open spec fn group_ok(raw: Seq<i32>, layers: Range<usize>, g: Group) -> bool {
    &&& g.offset_x == raw[1]
    &&& g.offset_y == raw[2]
    &&& g.parallax_x == raw[3]
    &&& g.parallax_y == raw[4]
    &&& g.layer_indices.start == layers.start + raw[5]
    &&& g.layer_indices.end == layers.start + raw[5] + raw[6]
    &&& g.clipping == (if !item_old::<MapItemGroupV2>(raw) && raw[7] != 0 {
        Some(Clipping { x: raw[8], y: raw[9], width: raw[10], height: raw[11] })
    } else {
        None
    })
    &&& g.name@ == (if !item_old::<MapItemGroupV3>(raw) {
        stored_name(raw.subrange(12, 15))
    } else {
        seq![0u8; 12]
    })
}

impl Group {
    /// The group held by the data `raw`, its layers being counted from the
    /// start of `layer_indices`.
    pub fn from_raw(raw: &[i32], layer_indices: Range<usize>) -> (r: Result<Group, GroupError>)
        ensures
            match group_error(raw@, layer_indices) {
                Some(e) => r == Err::<Group, GroupError>(e),
                None => r matches Ok(g) && group_ok(raw@, layer_indices, g),
            },
    {
        let v1 = match optional::<MapItemGroupV1>(raw) {
            Err(len) => return Err(GroupError::TooShort(len)),
            Ok(None) => return Err(GroupError::InvalidVersion(raw[0])),
            Ok(Some(v1)) => v1,
        };
        let v2 = match optional::<MapItemGroupV2>(raw) {
            Err(len) => return Err(GroupError::TooShort(len)),
            Ok(v2) => v2,
        };
        let v3 = match optional::<MapItemGroupV3>(raw) {
            Err(len) => return Err(GroupError::TooShort(len)),
            Ok(v3) => v3,
        };
        proof {
            assert(v1.ints()[4] == raw@[5] && v1.ints()[5] == raw@[6]);
            assert(v1.ints()[0] == raw@[1] && v1.ints()[1] == raw@[2]);
            assert(v1.ints()[2] == raw@[3] && v1.ints()[3] == raw@[4]);
        }
        let sl = GroupError::InvalidStartLayerIndex(v1.start_layer, v1.num_layers);
        let nl = GroupError::InvalidNumLayers(v1.start_layer, v1.num_layers);
        if v1.start_layer < 0 {
            return Err(sl);
        }
        let start = v1.start_layer as usize;
        if start > layer_indices.end || layer_indices.start > layer_indices.end - start {
            return Err(sl);
        }
        let layers_start = layer_indices.start + start;
        if v1.num_layers < 0 {
            return Err(nl);
        }
        let num = v1.num_layers as usize;
        if num > layer_indices.end - layers_start {
            return Err(nl);
        }
        let layers_end = layers_start + num;
        let clipping = match v2 {
            Some(v2) => {
                proof {
                    assert(v2.ints()[0] == raw@[7] && v2.ints()[1] == raw@[8]);
                    assert(v2.ints()[2] == raw@[9] && v2.ints()[3] == raw@[10]);
                    assert(v2.ints()[4] == raw@[11]);
                }
                if v2.use_clipping != 0 {
                    Some(Clipping { x: v2.clip_x, y: v2.clip_y, width: v2.clip_w, height: v2.clip_h })
                } else {
                    None
                }
            },
            None => None,
        };
        let name = match v3 {
            Some(v3) => {
                proof {
                    assert(v3.name@ =~= raw@.subrange(12, 15));
                }
                v3.name_get()
            },
            None => {
                let z = [0u8; 12];
                assert(z@ =~= seq![0u8; 12]);
                z
            },
        };
        Ok(Group {
            offset_x: v1.offset_x,
            offset_y: v1.offset_y,
            parallax_x: v1.parallax_x,
            parallax_y: v1.parallax_y,
            layer_indices: layers_start..layers_end,
            clipping: clipping,
            name: name,
        })
    }
}

// ---------------------------------------------------------------------------
// Images.

/// What is wrong with an image item.
#[derive(Clone, Copy, Debug, PartialEq, Eq, Structural)]
pub enum ImageError {
    TooShort(usize),
    InvalidVersion(i32),
    InvalidDataIndex(i32),
    InvalidNameIndex(i32),
    InvalidWidth(i32),
    InvalidHeight(i32),
}

/// An image: its size, the data index of its name, and that of its pixels
/// unless it is external.
pub struct Image {
    pub width: u32,
    pub height: u32,
    pub name: usize,
    pub data: Option<usize>,
}

/// Why the image data `raw` is refused.
pub open spec fn image_error(raw: Seq<i32>, data: Range<usize>) -> Option<ImageError> {
    if item_short::<MapItemImageV1>(raw) {
        Some(ImageError::TooShort(raw.len() as usize))
    } else if item_old::<MapItemImageV1>(raw) {
        Some(ImageError::InvalidVersion(raw[0]))
    } else if raw[3] == 0 && index_in(raw[5], data) is None {
        Some(ImageError::InvalidDataIndex(raw[5]))
    } else if raw[1] < 0 {
        Some(ImageError::InvalidWidth(raw[1]))
    } else if raw[2] < 0 {
        Some(ImageError::InvalidHeight(raw[2]))
    } else if index_in(raw[4], data) is None {
        Some(ImageError::InvalidNameIndex(raw[4]))
    } else {
        None
    }
}

/// `i` is the image read from the data `raw` that passed the checks.
pub open spec fn image_ok(raw: Seq<i32>, data: Range<usize>, i: Image) -> bool {
    &&& i.width == raw[1]
    &&& i.height == raw[2]
    &&& Some(i.name) == index_in(raw[4], data)
    &&& i.data == (if raw[3] != 0 {
        None
    } else {
        index_in(raw[5], data)
    })
}

impl Image {
    /// The image held by the data `raw`; data indices are counted from the
    /// start of `data_indices`.
    pub fn from_raw(raw: &[i32], data_indices: Range<usize>) -> (r: Result<Image, ImageError>)
        ensures
            match image_error(raw@, data_indices) {
                Some(e) => r == Err::<Image, ImageError>(e),
                None => r matches Ok(i) && image_ok(raw@, data_indices, i),
            },
    {
        let v1 = match optional::<MapItemImageV1>(raw) {
            Err(len) => return Err(ImageError::TooShort(len)),
            Ok(None) => return Err(ImageError::InvalidVersion(raw[0])),
            Ok(Some(v1)) => v1,
        };
        proof {
            assert(v1.ints()[0] == raw@[1] && v1.ints()[1] == raw@[2] && v1.ints()[2] == raw@[3]);
            assert(v1.ints()[3] == raw@[4] && v1.ints()[4] == raw@[5]);
        }
        let data = if v1.external != 0 {
            None
        } else {
            match get_index_impl(v1.data, Range { start: data_indices.start, end: data_indices.end }) {
                Some(d) => Some(d),
                None => return Err(ImageError::InvalidDataIndex(v1.data)),
            }
        };
        if v1.width < 0 {
            return Err(ImageError::InvalidWidth(v1.width));
        }
        if v1.height < 0 {
            return Err(ImageError::InvalidHeight(v1.height));
        }
        let name = match get_index_impl(v1.name, data_indices) {
            Some(n) => n,
            None => return Err(ImageError::InvalidNameIndex(v1.name)),
        };
        Ok(Image { width: v1.width as u32, height: v1.height as u32, name: name, data: data })
    }
}

// ---------------------------------------------------------------------------
// Info.

/// What is wrong with the info item.
#[derive(Clone, Copy, Debug, PartialEq, Eq, Structural)]
pub enum InfoError {
    TooShort(usize),
    InvalidVersion(i32),
    InvalidAuthorIndex(i32),
    InvalidVersionIndex(i32),
    InvalidCreditsIndex(i32),
    InvalidLicenseIndex(i32),
    InvalidSettingsIndex(i32),
}

/// The data indices of the map's info strings and settings.
pub struct Info {
    pub author: Option<usize>,
    pub version: Option<usize>,
    pub credits: Option<usize>,
    pub license: Option<usize>,
    pub settings: Option<usize>,
}

/// The info data `raw` carries the settings index.
pub open spec fn has_settings(raw: Seq<i32>) -> bool {
    !item_old::<MapItemInfoV1ExtraRace>(raw) && !item_short::<MapItemInfoV1ExtraRace>(raw)
}

/// Why the info data `raw` is refused.
pub open spec fn info_error(raw: Seq<i32>, data: Range<usize>) -> Option<InfoError> {
    if item_short::<MapItemInfoV1>(raw) {
        Some(InfoError::TooShort(raw.len() as usize))
    } else if item_old::<MapItemInfoV1>(raw) {
        Some(InfoError::InvalidVersion(raw[0]))
    } else if opt_index_in(raw[1], data) is None {
        Some(InfoError::InvalidAuthorIndex(raw[1]))
    } else if opt_index_in(raw[2], data) is None {
        Some(InfoError::InvalidVersionIndex(raw[2]))
    } else if opt_index_in(raw[3], data) is None {
        Some(InfoError::InvalidCreditsIndex(raw[3]))
    } else if opt_index_in(raw[4], data) is None {
        Some(InfoError::InvalidLicenseIndex(raw[4]))
    } else if has_settings(raw) && opt_index_in(raw[5], data) is None {
        Some(InfoError::InvalidSettingsIndex(raw[5]))
    } else {
        None
    }
}

/// `i` is the info read from the data `raw` that passed the checks.
pub open spec fn info_ok(raw: Seq<i32>, data: Range<usize>, i: Info) -> bool {
    &&& Some(i.author) == opt_index_in(raw[1], data)
    &&& Some(i.version) == opt_index_in(raw[2], data)
    &&& Some(i.credits) == opt_index_in(raw[3], data)
    &&& Some(i.license) == opt_index_in(raw[4], data)
    &&& i.settings == (if has_settings(raw) {
        opt_index_in(raw[5], data).unwrap()
    } else {
        None
    })
}

impl Info {
    /// The info held by the data `raw`; data indices are counted from the
    /// start of `data_indices`.
    pub fn from_raw(raw: &[i32], data_indices: Range<usize>) -> (r: Result<Info, InfoError>)
        ensures
            match info_error(raw@, data_indices) {
                Some(e) => r == Err::<Info, InfoError>(e),
                None => r matches Ok(i) && info_ok(raw@, data_indices, i),
            },
    {
        let v1 = match optional::<MapItemInfoV1>(raw) {
            Err(len) => return Err(InfoError::TooShort(len)),
            Ok(None) => return Err(InfoError::InvalidVersion(raw[0])),
            Ok(Some(v1)) => v1,
        };
        let v2 = match optional::<MapItemInfoV1ExtraRace>(raw) {
            Ok(Some(v2)) => Some(v2),
            _ => None,
        };
        proof {
            assert(v1.ints()[0] == raw@[1] && v1.ints()[1] == raw@[2]);
            assert(v1.ints()[2] == raw@[3] && v1.ints()[3] == raw@[4]);
            if let Some(v2) = v2 {
                assert(v2.ints()[0] == raw@[5]);
            }
        }
        let start = data_indices.start;
        let end = data_indices.end;
        let author = match get_index_opt(v1.author, Range { start, end }) {
            Some(i) => i,
            None => return Err(InfoError::InvalidAuthorIndex(v1.author)),
        };
        let version = match get_index_opt(v1.map_version, Range { start, end }) {
            Some(i) => i,
            None => return Err(InfoError::InvalidVersionIndex(v1.map_version)),
        };
        let credits = match get_index_opt(v1.credits, Range { start, end }) {
            Some(i) => i,
            None => return Err(InfoError::InvalidCreditsIndex(v1.credits)),
        };
        let license = match get_index_opt(v1.license, Range { start, end }) {
            Some(i) => i,
            None => return Err(InfoError::InvalidLicenseIndex(v1.license)),
        };
        let settings = match v2 {
            Some(v2) => match get_index_opt(v2.settings, Range { start, end }) {
                Some(i) => i,
                None => return Err(InfoError::InvalidSettingsIndex(v2.settings)),
            },
            None => None,
        };
        Ok(Info { author, version, credits, license, settings })
    }
}

// ---------------------------------------------------------------------------
// Quad layers.

/// What is wrong with a quad layer.
#[derive(Clone, Copy, Debug, PartialEq, Eq, Structural)]
pub enum LayerQuadsError {
    TooShort(usize),
    TooShortV2(usize),
    InvalidVersion(i32),
    InvalidNumQuads(i32),
    InvalidDataIndex(i32),
    InvalidImageIndex(i32),
}

/// A quad layer: the number of its quads, their data index, its image and
/// name.
#[derive(Clone, Copy)]
pub struct LayerQuads {
    pub num_quads: usize,
    pub data: usize,
    pub image: Option<usize>,
    pub name: [u8; 12],
}

/// Why the quad layer data `raw` is refused.
pub open spec fn quads_error(raw: Seq<i32>, data: Range<usize>, images: Range<usize>) -> Option<LayerQuadsError> {
    if item_short::<MapItemLayerV1QuadsV1>(raw) {
        Some(LayerQuadsError::TooShort(raw.len() as usize))
    } else if item_old::<MapItemLayerV1QuadsV1>(raw) {
        Some(LayerQuadsError::InvalidVersion(raw[0]))
    } else if item_short::<MapItemLayerV1QuadsV2>(raw) {
        Some(LayerQuadsError::TooShortV2(raw.len() as usize))
    } else if raw[1] < 0 {
        Some(LayerQuadsError::InvalidNumQuads(raw[1]))
    } else if index_in(raw[2], data) is None {
        Some(LayerQuadsError::InvalidDataIndex(raw[2]))
    } else if opt_index_in(raw[3], images) is None {
        Some(LayerQuadsError::InvalidImageIndex(raw[3]))
    } else {
        None
    }
}

/// `q` is the quad layer read from the data `raw` that passed the checks.
pub open spec fn quads_ok(raw: Seq<i32>, data: Range<usize>, images: Range<usize>, q: LayerQuads) -> bool {
    &&& q.num_quads == raw[1]
    &&& Some(q.data) == index_in(raw[2], data)
    &&& Some(q.image) == opt_index_in(raw[3], images)
    &&& q.name@ == (if !item_old::<MapItemLayerV1QuadsV2>(raw) {
        stored_name(raw.subrange(4, 7))
    } else {
        seq![0u8; 12]
    })
}

impl LayerQuads {
    fn from_raw(raw: &[i32], data_indices: Range<usize>, image_indices: Range<usize>) -> (r: Result<LayerQuads, LayerQuadsError>)
        ensures
            match quads_error(raw@, data_indices, image_indices) {
                Some(e) => r == Err::<LayerQuads, LayerQuadsError>(e),
                None => r matches Ok(q) && quads_ok(raw@, data_indices, image_indices, q),
            },
    {
        let v1 = match optional::<MapItemLayerV1QuadsV1>(raw) {
            Err(len) => return Err(LayerQuadsError::TooShort(len)),
            Ok(None) => return Err(LayerQuadsError::InvalidVersion(raw[0])),
            Ok(Some(v1)) => v1,
        };
        let v2 = match optional::<MapItemLayerV1QuadsV2>(raw) {
            Err(len) => return Err(LayerQuadsError::TooShortV2(len)),
            Ok(v2) => v2,
        };
        proof {
            assert(v1.ints()[0] == raw@[1] && v1.ints()[1] == raw@[2] && v1.ints()[2] == raw@[3]);
        }
        let name = match v2 {
            Some(v2) => {
                proof {
                    assert(v2.name@ =~= raw@.subrange(4, 7));
                }
                v2.name_get()
            },
            None => {
                let z = [0u8; 12];
                assert(z@ =~= seq![0u8; 12]);
                z
            },
        };
        if v1.num_quads < 0 {
            return Err(LayerQuadsError::InvalidNumQuads(v1.num_quads));
        }
        let data = match get_index_impl(v1.data, data_indices) {
            Some(d) => d,
            None => return Err(LayerQuadsError::InvalidDataIndex(v1.data)),
        };
        let image = match get_index_opt(v1.image, image_indices) {
            Some(i) => i,
            None => return Err(LayerQuadsError::InvalidImageIndex(v1.image)),
        };
        Ok(LayerQuads { num_quads: v1.num_quads as usize, data, image, name })
    }
}

// ---------------------------------------------------------------------------
// Sound layers.

/// What is wrong with a sound layer.
#[derive(Clone, Copy, Debug, PartialEq, Eq, Structural)]
pub enum DdraceLayerSoundsError {
    TooShort(usize),
    TooShortV2(usize),
    InvalidVersion(i32),
    InvalidNumSources(i32),
    InvalidDataIndex(i32),
    InvalidSoundIndex(i32),
}

/// A sound layer of a DDRace map.
#[derive(Clone, Copy)]
pub struct DdraceLayerSounds {
    pub num_sources: usize,
    pub data: usize,
    pub sound: Option<usize>,
    pub legacy: bool,
    pub name: [u8; 12],
}

/// Why the sound layer data `raw` is refused. Its fields follow the version
/// in every version; a layer of the current type must be of version 2.
pub open spec fn sounds_error(
    raw: Seq<i32>,
    data: Range<usize>,
    sounds: Range<usize>,
    legacy: bool,
) -> Option<DdraceLayerSoundsError> {
    if raw.len() >= 1 && raw[0] < 1 {
        Some(DdraceLayerSoundsError::InvalidVersion(raw[0]))
    } else if raw.len() < 7 {
        Some(DdraceLayerSoundsError::TooShort(raw.len() as usize))
    } else if !legacy && raw[0] < 2 {
        Some(DdraceLayerSoundsError::InvalidVersion(raw[0]))
    } else if raw[1] < 0 {
        Some(DdraceLayerSoundsError::InvalidNumSources(raw[1]))
    } else if index_in(raw[2], data) is None {
        Some(DdraceLayerSoundsError::InvalidDataIndex(raw[2]))
    } else if opt_index_in(raw[3], sounds) is None {
        Some(DdraceLayerSoundsError::InvalidSoundIndex(raw[3]))
    } else {
        None
    }
}

/// `s` is the sound layer read from the data `raw` that passed the checks.
pub open spec fn sounds_ok(
    raw: Seq<i32>,
    data: Range<usize>,
    sounds: Range<usize>,
    legacy: bool,
    s: DdraceLayerSounds,
) -> bool {
    &&& s.num_sources == raw[1]
    &&& Some(s.data) == index_in(raw[2], data)
    &&& Some(s.sound) == opt_index_in(raw[3], sounds)
    &&& s.legacy == legacy
    &&& s.name@ == stored_name(raw.subrange(4, 7))
}

impl DdraceLayerSounds {
    fn from_raw(
        raw: &[i32],
        data_indices: Range<usize>,
        sound_indices: Range<usize>,
        legacy: bool,
    ) -> (r: Result<DdraceLayerSounds, DdraceLayerSoundsError>)
        ensures
            match sounds_error(raw@, data_indices, sound_indices, legacy) {
                Some(e) => r == Err::<DdraceLayerSounds, DdraceLayerSoundsError>(e),
                None => r matches Ok(s) && sounds_ok(raw@, data_indices, sound_indices, legacy, s),
            },
    {
        if raw.len() >= 1 && raw[0] < 1 {
            return Err(DdraceLayerSoundsError::InvalidVersion(raw[0]));
        }
        if raw.len() < 7 {
            return Err(DdraceLayerSoundsError::TooShort(raw.len()));
        }
        if !legacy && raw[0] < 2 {
            return Err(DdraceLayerSoundsError::InvalidVersion(raw[0]));
        }
        let fields = MapItemLayerV1DdraceSoundsV2 {
            num_sources: raw[1],
            data: raw[2],
            sound: raw[3],
            name: [raw[4], raw[5], raw[6]],
        };
        proof {
            assert(fields.name@ =~= raw@.subrange(4, 7));
        }
        if fields.num_sources < 0 {
            return Err(DdraceLayerSoundsError::InvalidNumSources(fields.num_sources));
        }
        let data = match get_index_impl(fields.data, data_indices) {
            Some(d) => d,
            None => return Err(DdraceLayerSoundsError::InvalidDataIndex(fields.data)),
        };
        let sound = match get_index_opt(fields.sound, sound_indices) {
            Some(s) => s,
            None => return Err(DdraceLayerSoundsError::InvalidSoundIndex(fields.sound)),
        };
        Ok(DdraceLayerSounds {
            num_sources: fields.num_sources as usize,
            data,
            sound,
            legacy,
            name: fields.name_get(),
        })
    }
}

// ---------------------------------------------------------------------------
// Tile layers.

/// What is wrong with a tile layer.
#[derive(Clone, Copy, Debug, PartialEq, Eq, Structural)]
pub enum LayerTilemapError {
    TooShort(usize),
    TooShortV2(usize),
    TooShortV3(usize),
    TooShortRaceTeleport(usize),
    TooShortRaceSpeedup(usize),
    TooShortDdraceFront(usize),
    TooShortDdraceSwitch(usize),
    TooShortDdraceTune(usize),
    InvalidVersion(i32),
    InvalidColor(ColorComponent, i32),
    InvalidColorEnvelopeIndex(i32),
    InvalidImageIndex(i32),
    InvalidDataIndex(i32),
    InvalidRaceTeleportDataIndex(i32),
    InvalidRaceSpeedupDataIndex(i32),
    InvalidDdraceFrontDataIndex(i32),
    InvalidDdraceSwitchDataIndex(i32),
    InvalidDdraceTuneDataIndex(i32),
    InvalidFlags(i32),
    InvalidWidth(i32),
    InvalidHeight(i32),
}

/// A color.
#[derive(Clone, Copy)]
pub struct Color {
    pub red: u8,
    pub green: u8,
    pub blue: u8,
    pub alpha: u8,
}

/// A tile layer that is drawn.
#[derive(Clone, Copy)]
pub struct LayerTilemapNormal {
    pub color: Color,
    pub color_env_and_offset: Option<(usize, i32)>,
    pub image: Option<usize>,
    pub data: usize,
}

/// The kind of a tile layer, with the data indices of its tiles; the layers
/// of the race and DDRace kinds also carry the index of their zeroed normal
/// tiles, second.
#[derive(Clone, Copy)]
pub enum LayerTilemapType {
    Normal(LayerTilemapNormal),
    Game(usize),
    RaceTeleport(usize, usize),
    RaceSpeedup(usize, usize),
    DdraceFront(usize, usize),
    DdraceSwitch(usize, usize),
    DdraceTune(usize, usize),
}

impl LayerTilemapType {
    /// The drawn layer, where the layer is one.
    pub fn to_normal(&self) -> (r: Option<&LayerTilemapNormal>)
        ensures
            r == (match *self {
                LayerTilemapType::Normal(n) => Some(&n),
                _ => None,
            }),
    {
        match self {
            LayerTilemapType::Normal(n) => Some(n),
            _ => None,
        }
    }

    /// The data index of the layer's tiles, for the kinds whose tiles are
    /// plain tiles.
    pub fn tiles(&self) -> (r: Option<usize>)
        ensures
            r == (match *self {
                LayerTilemapType::Normal(n) => Some(n.data),
                LayerTilemapType::Game(d) => Some(d),
                LayerTilemapType::DdraceFront(d, _) => Some(d),
                _ => None,
            }),
    {
        match *self {
            LayerTilemapType::Normal(ref n) => Some(n.data),
            LayerTilemapType::Game(d) => Some(d),
            LayerTilemapType::DdraceFront(d, _) => Some(d),
            _ => None,
        }
    }
}

/// Where the tiles of a layer lie and how they are laid out.
#[derive(Clone, Copy)]
pub struct LayerTilesIndex {
    pub data_index: usize,
    pub width: u32,
    pub height: u32,
}

/// A tile layer.
#[derive(Clone, Copy)]
pub struct LayerTilemap {
    pub width: u32,
    pub height: u32,
    pub type_: LayerTilemapType,
    pub name: [u8; 12],
}

impl LayerTilemap {
    /// The tiles stored at `data_index`, laid out as this layer.
    pub fn tiles(&self, data_index: usize) -> (r: LayerTilesIndex)
        ensures
            r == (LayerTilesIndex { data_index: data_index, width: self.width, height: self.height }),
    {
        LayerTilesIndex { data_index: data_index, width: self.width, height: self.height }
    }
}

/// The color of the tile layer data `raw`.
pub open spec fn color_of(raw: Seq<i32>) -> Color {
    Color { red: raw[4] as u8, green: raw[5] as u8, blue: raw[6] as u8, alpha: raw[7] as u8 }
}

/// The component of the color of `raw` that is no byte.
pub open spec fn color_error(raw: Seq<i32>) -> Option<LayerTilemapError> {
    if !(0 <= raw[4] <= 255) {
        Some(LayerTilemapError::InvalidColor(ColorComponent::Red, raw[4]))
    } else if !(0 <= raw[5] <= 255) {
        Some(LayerTilemapError::InvalidColor(ColorComponent::Green, raw[5]))
    } else if !(0 <= raw[6] <= 255) {
        Some(LayerTilemapError::InvalidColor(ColorComponent::Blue, raw[6]))
    } else if !(0 <= raw[7] <= 255) {
        Some(LayerTilemapError::InvalidColor(ColorComponent::Alpha, raw[7]))
    } else {
        None
    }
}

/// The color envelope of `raw` and its offset, if any; none where the
/// envelope index is invalid.
pub open spec fn envelope_of(raw: Seq<i32>, envelopes: Range<usize>) -> Option<Option<(usize, i32)>> {
    if raw[8] == -1 {
        Some(None)
    } else {
        match index_in(raw[8], envelopes) {
            Some(i) => Some(Some((i, raw[9]))),
            None => None,
        }
    }
}

/// The place in `raw` of the extra data index of a layer with flags `f`,
/// where `raw` reaches it.
pub open spec fn extra_slot(raw: Seq<i32>, f: u32) -> Option<int> {
    match extra_race_offset(raw[0], f) {
        Some(o) => if o < raw.len() {
            Some(o as int)
        } else {
            None
        },
        None => None,
    }
}

/// The extra data index of a layer with flags `f`, counted in `data`.
pub open spec fn extra_index(raw: Seq<i32>, f: u32, data: Range<usize>) -> Option<usize> {
    match extra_slot(raw, f) {
        Some(o) => index_in(raw[o], data),
        None => None,
    }
}

/// Why the kind of the tile layer data `raw` is refused, by its flags
/// `raw[3]`.
pub open spec fn tilemap_kind_error(raw: Seq<i32>, data: Range<usize>) -> Option<LayerTilemapError> {
    let f = raw[3];
    let len = raw.len() as usize;
    if f == 0 || f == 1 {
        None
    } else if f == 2 {
        match extra_slot(raw, 2) {
            None => Some(LayerTilemapError::TooShortRaceTeleport(len)),
            Some(o) => if index_in(raw[o], data) is None {
                Some(LayerTilemapError::InvalidRaceTeleportDataIndex(raw[o]))
            } else {
                None
            },
        }
    } else if f == 4 {
        match extra_slot(raw, 4) {
            None => Some(LayerTilemapError::TooShortRaceSpeedup(len)),
            Some(o) => if index_in(raw[o], data) is None {
                Some(LayerTilemapError::InvalidRaceSpeedupDataIndex(raw[o]))
            } else {
                None
            },
        }
    } else if f == 8 {
        match extra_slot(raw, 8) {
            None => Some(LayerTilemapError::TooShortDdraceFront(len)),
            Some(o) => if index_in(raw[o], data) is None {
                Some(LayerTilemapError::InvalidDdraceFrontDataIndex(raw[o]))
            } else {
                None
            },
        }
    } else if f == 16 {
        match extra_slot(raw, 16) {
            None => Some(LayerTilemapError::TooShortDdraceSwitch(len)),
            Some(o) => if index_in(raw[o], data) is None {
                Some(LayerTilemapError::InvalidDdraceSwitchDataIndex(raw[o]))
            } else {
                None
            },
        }
    } else if f == 32 {
        match extra_slot(raw, 32) {
            None => Some(LayerTilemapError::TooShortDdraceTune(len)),
            Some(o) => if index_in(raw[o], data) is None {
                Some(LayerTilemapError::InvalidDdraceTuneDataIndex(raw[o]))
            } else {
                None
            },
        }
    } else {
        Some(LayerTilemapError::InvalidFlags(f))
    }
}

/// Why the tile layer data `raw` is refused.
pub open spec fn tilemap_error(
    raw: Seq<i32>,
    data: Range<usize>,
    envelopes: Range<usize>,
    images: Range<usize>,
) -> Option<LayerTilemapError> {
    let len = raw.len() as usize;
    if raw.len() < 1 {
        Some(LayerTilemapError::TooShort(len))
    } else if item_old::<MapItemLayerV1TilemapV2>(raw) {
        Some(LayerTilemapError::InvalidVersion(raw[0]))
    } else if item_short::<MapItemLayerV1TilemapV2>(raw) {
        Some(LayerTilemapError::TooShortV2(len))
    } else if item_short::<MapItemLayerV1TilemapV3>(raw) {
        Some(LayerTilemapError::TooShortV3(len))
    } else if color_error(raw) is Some {
        color_error(raw)
    } else if envelope_of(raw, envelopes) is None {
        Some(LayerTilemapError::InvalidColorEnvelopeIndex(raw[8]))
    } else if opt_index_in(raw[10], images) is None {
        Some(LayerTilemapError::InvalidImageIndex(raw[10]))
    } else if index_in(raw[11], data) is None {
        Some(LayerTilemapError::InvalidDataIndex(raw[11]))
    } else if tilemap_kind_error(raw, data) is Some {
        tilemap_kind_error(raw, data)
    } else if raw[1] < 0 {
        Some(LayerTilemapError::InvalidWidth(raw[1]))
    } else if raw[2] < 0 {
        Some(LayerTilemapError::InvalidHeight(raw[2]))
    } else if raw[1] == 0 {
        Some(LayerTilemapError::InvalidWidth(raw[1]))
    } else if raw[2] == 0 {
        Some(LayerTilemapError::InvalidHeight(raw[2]))
    } else {
        None
    }
}

/// The kind of the tile layer data `raw` that passed the checks.
pub open spec fn tilemap_type(
    raw: Seq<i32>,
    data: Range<usize>,
    envelopes: Range<usize>,
    images: Range<usize>,
) -> LayerTilemapType {
    let d = index_in(raw[11], data).unwrap();
    let f = raw[3];
    if f == 0 {
        LayerTilemapType::Normal(LayerTilemapNormal {
            color: color_of(raw),
            color_env_and_offset: envelope_of(raw, envelopes).unwrap(),
            image: opt_index_in(raw[10], images).unwrap(),
            data: d,
        })
    } else if f == 1 {
        LayerTilemapType::Game(d)
    } else if f == 2 {
        LayerTilemapType::RaceTeleport(extra_index(raw, 2, data).unwrap(), d)
    } else if f == 4 {
        LayerTilemapType::RaceSpeedup(extra_index(raw, 4, data).unwrap(), d)
    } else if f == 8 {
        LayerTilemapType::DdraceFront(extra_index(raw, 8, data).unwrap(), d)
    } else if f == 16 {
        LayerTilemapType::DdraceSwitch(extra_index(raw, 16, data).unwrap(), d)
    } else {
        LayerTilemapType::DdraceTune(extra_index(raw, 32, data).unwrap(), d)
    }
}

/// `t` is the tile layer read from the data `raw` that passed the checks.
pub open spec fn tilemap_ok(
    raw: Seq<i32>,
    data: Range<usize>,
    envelopes: Range<usize>,
    images: Range<usize>,
    t: LayerTilemap,
) -> bool {
    &&& t.width == raw[1]
    &&& t.height == raw[2]
    &&& t.type_ == tilemap_type(raw, data, envelopes, images)
    &&& t.name@ == (if !item_old::<MapItemLayerV1TilemapV3>(raw) {
        stored_name(raw.subrange(12, 15))
    } else {
        seq![0u8; 12]
    })
}

/// The extra data index of a tile layer with flags `flags`: `Err(None)`
/// where the data is too short for it, `Err(Some(v))` where the index `v`
/// is invalid.
fn extra_data_index(raw: &[i32], version: i32, flags: u32, data_indices: Range<usize>) -> (r: Result<usize, Option<i32>>)
    requires
        raw@.len() >= 1,
        raw@[0] == version,
    ensures
        r == (match extra_slot(raw@, flags) {
            None => Err::<usize, Option<i32>>(None),
            Some(o) => match index_in(raw@[o], data_indices) {
                Some(i) => Ok::<usize, Option<i32>>(i),
                None => Err(Some(raw@[o])),
            },
        }),
{
    match MapItemLayerV1TilemapExtraRace::from_slice(raw, version, flags) {
        None => Err(None),
        Some(extra) => match get_index_impl(extra.data, data_indices) {
            Some(i) => Ok(i),
            None => Err(Some(extra.data)),
        },
    }
}

/// A byte component of a color.
fn color_component(v: i32) -> (r: Option<u8>)
    ensures
        r == (if 0 <= v <= 255 {
            Some(v as u8)
        } else {
            None
        }),
{
    if 0 <= v && v <= 255 {
        Some(v as u8)
    } else {
        None
    }
}

impl LayerTilemap {
    fn from_raw(
        raw: &[i32],
        data_indices: Range<usize>,
        envelope_indices: Range<usize>,
        image_indices: Range<usize>,
    ) -> (r: Result<LayerTilemap, LayerTilemapError>)
        ensures
            match tilemap_error(raw@, data_indices, envelope_indices, image_indices) {
                Some(e) => r == Err::<LayerTilemap, LayerTilemapError>(e),
                None => r matches Ok(t) && tilemap_ok(raw@, data_indices, envelope_indices, image_indices, t),
            },
    {
        let v0 = match optional::<MapItemLayerV1CommonV0>(raw) {
            Err(len) => return Err(LayerTilemapError::TooShort(len)),
            Ok(None) => return Err(LayerTilemapError::InvalidVersion(raw[0])),
            Ok(Some(v0)) => v0,
        };
        let v2 = match optional::<MapItemLayerV1TilemapV2>(raw) {
            Err(len) => return Err(LayerTilemapError::TooShortV2(len)),
            Ok(None) => return Err(LayerTilemapError::InvalidVersion(raw[0])),
            Ok(Some(v2)) => v2,
        };
        let v3 = match optional::<MapItemLayerV1TilemapV3>(raw) {
            Err(len) => return Err(LayerTilemapError::TooShortV3(len)),
            Ok(v3) => v3,
        };
        proof {
            assert(v0.ints()[0] == raw@[0]);
            assert(v2.ints()[0] == raw@[1] && v2.ints()[1] == raw@[2] && v2.ints()[2] == raw@[3]);
            assert(v2.ints()[3] == raw@[4] && v2.ints()[4] == raw@[5] && v2.ints()[5] == raw@[6]);
            assert(v2.ints()[6] == raw@[7] && v2.ints()[7] == raw@[8] && v2.ints()[8] == raw@[9]);
            assert(v2.ints()[9] == raw@[10] && v2.ints()[10] == raw@[11]);
        }
        let red = match color_component(v2.color_red) {
            Some(c) => c,
            None => return Err(LayerTilemapError::InvalidColor(ColorComponent::Red, v2.color_red)),
        };
        let green = match color_component(v2.color_green) {
            Some(c) => c,
            None => return Err(LayerTilemapError::InvalidColor(ColorComponent::Green, v2.color_green)),
        };
        let blue = match color_component(v2.color_blue) {
            Some(c) => c,
            None => return Err(LayerTilemapError::InvalidColor(ColorComponent::Blue, v2.color_blue)),
        };
        let alpha = match color_component(v2.color_alpha) {
            Some(c) => c,
            None => return Err(LayerTilemapError::InvalidColor(ColorComponent::Alpha, v2.color_alpha)),
        };
        let color = Color { red, green, blue, alpha };
        let color_env_and_offset = if v2.color_env == -1 {
            None
        } else {
            match get_index_impl(v2.color_env, envelope_indices) {
                Some(index) => Some((index, v2.color_env_offset)),
                None => return Err(LayerTilemapError::InvalidColorEnvelopeIndex(v2.color_env)),
            }
        };
        let image = match get_index_opt(v2.image, image_indices) {
            Some(i) => i,
            None => return Err(LayerTilemapError::InvalidImageIndex(v2.image)),
        };
        let ds = data_indices.start;
        let de = data_indices.end;
        let data = match get_index_impl(v2.data, Range { start: ds, end: de }) {
            Some(d) => d,
            None => return Err(LayerTilemapError::InvalidDataIndex(v2.data)),
        };
        let version = v0.version;
        let type_ = match v2.flags {
            0 => LayerTilemapType::Normal(LayerTilemapNormal { color, color_env_and_offset, image, data }),
            1 => LayerTilemapType::Game(data),
            2 => match extra_data_index(raw, version, 2, Range { start: ds, end: de }) {
                Ok(d) => LayerTilemapType::RaceTeleport(d, data),
                Err(None) => return Err(LayerTilemapError::TooShortRaceTeleport(raw.len())),
                Err(Some(v)) => return Err(LayerTilemapError::InvalidRaceTeleportDataIndex(v)),
            },
            4 => match extra_data_index(raw, version, 4, Range { start: ds, end: de }) {
                Ok(d) => LayerTilemapType::RaceSpeedup(d, data),
                Err(None) => return Err(LayerTilemapError::TooShortRaceSpeedup(raw.len())),
                Err(Some(v)) => return Err(LayerTilemapError::InvalidRaceSpeedupDataIndex(v)),
            },
            8 => match extra_data_index(raw, version, 8, Range { start: ds, end: de }) {
                Ok(d) => LayerTilemapType::DdraceFront(d, data),
                Err(None) => return Err(LayerTilemapError::TooShortDdraceFront(raw.len())),
                Err(Some(v)) => return Err(LayerTilemapError::InvalidDdraceFrontDataIndex(v)),
            },
            16 => match extra_data_index(raw, version, 16, Range { start: ds, end: de }) {
                Ok(d) => LayerTilemapType::DdraceSwitch(d, data),
                Err(None) => return Err(LayerTilemapError::TooShortDdraceSwitch(raw.len())),
                Err(Some(v)) => return Err(LayerTilemapError::InvalidDdraceSwitchDataIndex(v)),
            },
            32 => match extra_data_index(raw, version, 32, Range { start: ds, end: de }) {
                Ok(d) => LayerTilemapType::DdraceTune(d, data),
                Err(None) => return Err(LayerTilemapError::TooShortDdraceTune(raw.len())),
                Err(Some(v)) => return Err(LayerTilemapError::InvalidDdraceTuneDataIndex(v)),
            },
            _ => return Err(LayerTilemapError::InvalidFlags(v2.flags)),
        };
        let name = match v3 {
            Some(v3) => {
                proof {
                    assert(v3.name@ =~= raw@.subrange(12, 15));
                }
                v3.name_get()
            },
            None => {
                let z = [0u8; 12];
                assert(z@ =~= seq![0u8; 12]);
                z
            },
        };
        if v2.width < 0 {
            return Err(LayerTilemapError::InvalidWidth(v2.width));
        }
        if v2.height < 0 {
            return Err(LayerTilemapError::InvalidHeight(v2.height));
        }
        if v2.width == 0 {
            return Err(LayerTilemapError::InvalidWidth(v2.width));
        }
        if v2.height == 0 {
            return Err(LayerTilemapError::InvalidHeight(v2.height));
        }
        Ok(LayerTilemap { width: v2.width as u32, height: v2.height as u32, type_, name })
    }
}

// ---------------------------------------------------------------------------
// Layers.

/// What is wrong with a layer item.
#[derive(Clone, Copy, Debug, PartialEq, Eq, Structural)]
pub enum LayerError {
    TooShort(usize),
    InvalidFlags(i32),
    InvalidType(i32),
    Tilemap(LayerTilemapError),
    Quads(LayerQuadsError),
    DdraceSounds(DdraceLayerSoundsError),
}

/// What a layer is.
#[derive(Clone, Copy)]
pub enum LayerType {
    Quads(LayerQuads),
    Tilemap(LayerTilemap),
    DdraceSounds(DdraceLayerSounds),
}

/// A layer: whether it is a detail, and what it is.
#[derive(Clone, Copy)]
pub struct Layer {
    pub detail: bool,
    pub t: LayerType,
}

/// The layer data `raw` after the layer item.
pub open spec fn layer_rest(raw: Seq<i32>) -> Seq<i32> {
    raw.subrange(3, raw.len() as int)
}

/// Why the layer data `raw` is refused.
pub open spec fn layer_error(
    raw: Seq<i32>,
    data: Range<usize>,
    envelopes: Range<usize>,
    images: Range<usize>,
    sounds: Range<usize>,
) -> Option<LayerError> {
    let rest = layer_rest(raw);
    if raw.len() < 3 {
        Some(LayerError::TooShort(raw.len() as usize))
    } else if raw[2] != 0 && raw[2] != 1 {
        Some(LayerError::InvalidFlags(raw[2]))
    } else if raw[1] == MAP_ITEMTYPE_LAYER_V1_TILEMAP {
        match tilemap_error(rest, data, envelopes, images) {
            Some(e) => Some(LayerError::Tilemap(e)),
            None => None,
        }
    } else if raw[1] == MAP_ITEMTYPE_LAYER_V1_QUADS {
        match quads_error(rest, data, images) {
            Some(e) => Some(LayerError::Quads(e)),
            None => None,
        }
    } else if raw[1] == MAP_ITEMTYPE_LAYER_V1_DDRACE_SOUNDS || raw[1] == MAP_ITEMTYPE_LAYER_V1_DDRACE_SOUNDS_LEGACY {
        match sounds_error(rest, data, sounds, raw[1] != MAP_ITEMTYPE_LAYER_V1_DDRACE_SOUNDS) {
            Some(e) => Some(LayerError::DdraceSounds(e)),
            None => None,
        }
    } else {
        Some(LayerError::InvalidType(raw[1]))
    }
}

/// `l` is the layer read from the data `raw` that passed the checks.
pub open spec fn layer_ok(
    raw: Seq<i32>,
    data: Range<usize>,
    envelopes: Range<usize>,
    images: Range<usize>,
    sounds: Range<usize>,
    l: Layer,
) -> bool {
    let rest = layer_rest(raw);
    &&& l.detail == (raw[2] == 1)
    &&& raw[1] == MAP_ITEMTYPE_LAYER_V1_TILEMAP ==> (l.t matches LayerType::Tilemap(t)
        && tilemap_ok(rest, data, envelopes, images, t))
    &&& raw[1] == MAP_ITEMTYPE_LAYER_V1_QUADS ==> (l.t matches LayerType::Quads(q)
        && quads_ok(rest, data, images, q))
    &&& (raw[1] == MAP_ITEMTYPE_LAYER_V1_DDRACE_SOUNDS || raw[1] == MAP_ITEMTYPE_LAYER_V1_DDRACE_SOUNDS_LEGACY)
        ==> (l.t matches LayerType::DdraceSounds(s)
        && sounds_ok(rest, data, sounds, raw[1] != MAP_ITEMTYPE_LAYER_V1_DDRACE_SOUNDS, s))
}

impl Layer {
    /// The layer held by the data `raw`; the indices it names are counted
    /// from the starts of the ranges of data, envelopes, images and sounds.
    pub fn from_raw(
        raw: &[i32],
        data_indices: Range<usize>,
        envelope_indices: Range<usize>,
        image_indices: Range<usize>,
        sound_indices: Range<usize>,
    ) -> (r: Result<Layer, LayerError>)
        ensures
            match layer_error(raw@, data_indices, envelope_indices, image_indices, sound_indices) {
                Some(e) => r == Err::<Layer, LayerError>(e),
                None => r matches Ok(l) && layer_ok(
                    raw@,
                    data_indices,
                    envelope_indices,
                    image_indices,
                    sound_indices,
                    l,
                ),
            },
    {
        // The version of the layer item is not checked: Teeworlds itself
        // leaves it unset.
        let (v1, rest) = match MapItemLayerV1::from_slice_rest(raw) {
            Some(found) => found,
            None => return Err(LayerError::TooShort(raw.len())),
        };
        proof {
            assert(v1.ints()[0] == raw@[1] && v1.ints()[1] == raw@[2]);
            assert(rest@ =~= layer_rest(raw@));
        }
        if v1.flags != 0 && v1.flags != 1 {
            return Err(LayerError::InvalidFlags(v1.flags));
        }
        let t = if v1.type_ == MAP_ITEMTYPE_LAYER_V1_TILEMAP {
            match LayerTilemap::from_raw(rest, data_indices, envelope_indices, image_indices) {
                Ok(t) => LayerType::Tilemap(t),
                Err(e) => return Err(LayerError::Tilemap(e)),
            }
        } else if v1.type_ == MAP_ITEMTYPE_LAYER_V1_QUADS {
            match LayerQuads::from_raw(rest, data_indices, image_indices) {
                Ok(q) => LayerType::Quads(q),
                Err(e) => return Err(LayerError::Quads(e)),
            }
        } else if v1.type_ == MAP_ITEMTYPE_LAYER_V1_DDRACE_SOUNDS || v1.type_ == MAP_ITEMTYPE_LAYER_V1_DDRACE_SOUNDS_LEGACY {
            let legacy = v1.type_ != MAP_ITEMTYPE_LAYER_V1_DDRACE_SOUNDS;
            match DdraceLayerSounds::from_raw(rest, data_indices, sound_indices, legacy) {
                Ok(s) => LayerType::DdraceSounds(s),
                Err(e) => return Err(LayerError::DdraceSounds(e)),
            }
        } else {
            return Err(LayerError::InvalidType(v1.type_));
        };
        Ok(Layer { detail: v1.flags == 1, t })
    }
}

// ---------------------------------------------------------------------------
// The game layers.

/// The game group and its game, race and DDRace layers.
pub struct GameLayers {
    pub group: Group,
    pub width: u32,
    pub height: u32,
    pub game_raw: usize,
    pub teleport_raw: Option<usize>,
    pub speedup_raw: Option<usize>,
    pub front_raw: Option<usize>,
    pub switch_raw: Option<usize>,
    pub tune_raw: Option<usize>,
}

/// The tiles at `data_index`, laid out as the game layers.
pub open spec fn game_tiles(g: GameLayers, data_index: usize) -> LayerTilesIndex {
    LayerTilesIndex { data_index: data_index, width: g.width, height: g.height }
}

/// The tiles at each index of `i`, laid out as the game layers.
pub open spec fn game_tiles_opt(g: GameLayers, i: Option<usize>) -> Option<LayerTilesIndex> {
    match i {
        Some(d) => Some(game_tiles(g, d)),
        None => None,
    }
}

impl GameLayers {
    fn layer_tiles_index(&self, data_index: usize) -> (r: LayerTilesIndex)
        ensures
            r == game_tiles(*self, data_index),
    {
        LayerTilesIndex { data_index: data_index, width: self.width, height: self.height }
    }

    fn layer_tiles_index_opt(&self, i: Option<usize>) -> (r: Option<LayerTilesIndex>)
        ensures
            r == game_tiles_opt(*self, i),
    {
        match i {
            Some(d) => Some(self.layer_tiles_index(d)),
            None => None,
        }
    }

    pub fn game(&self) -> (r: LayerTilesIndex)
        ensures
            r == game_tiles(*self, self.game_raw),
    {
        self.layer_tiles_index(self.game_raw)
    }

    pub fn teleport(&self) -> (r: Option<LayerTilesIndex>)
        ensures
            r == game_tiles_opt(*self, self.teleport_raw),
    {
        self.layer_tiles_index_opt(self.teleport_raw)
    }

    pub fn speedup(&self) -> (r: Option<LayerTilesIndex>)
        ensures
            r == game_tiles_opt(*self, self.speedup_raw),
    {
        self.layer_tiles_index_opt(self.speedup_raw)
    }

    pub fn front(&self) -> (r: Option<LayerTilesIndex>)
        ensures
            r == game_tiles_opt(*self, self.front_raw),
    {
        self.layer_tiles_index_opt(self.front_raw)
    }

    pub fn switch(&self) -> (r: Option<LayerTilesIndex>)
        ensures
            r == game_tiles_opt(*self, self.switch_raw),
    {
        self.layer_tiles_index_opt(self.switch_raw)
    }

    pub fn tune(&self) -> (r: Option<LayerTilesIndex>)
        ensures
            r == game_tiles_opt(*self, self.tune_raw),
    {
        self.layer_tiles_index_opt(self.tune_raw)
    }
}

// ---------------------------------------------------------------------------
// The map as a whole.

/// What is wrong with a map.
#[derive(Clone, Copy, Debug, PartialEq, Eq, Structural)]
pub enum MapError {
    MissingVersion,
    EmptyVersion,
    InvalidVersion(i32),
    MissingInfo,
    Info(InfoError),
    Group(usize, GroupError),
    Layer(usize, LayerError),
    Image(usize, ImageError),
    TooManyGameLayers,
    TooManyGameGroups,
    InconsistentGameLayerDimensions,
    NoGameLayer,
    MalformedImageName(usize),
    InvalidTilesLength(usize),
    InvalidStringMissingNullTermination,
    InvalidStringNullTermination,
    InvalidSettingsMissingNullTermination,
}

/// The version held by the version item `raw`, if the map has one.
pub fn version_from_raw(raw: Option<&[i32]>) -> (r: Result<i32, MapError>)
    ensures
        r == (match raw {
            None => Err::<i32, MapError>(MapError::MissingVersion),
            Some(d) => if d@.len() == 0 {
                Err(MapError::EmptyVersion)
            } else {
                Ok(d@[0])
            },
        }),
{
    let raw = match raw {
        Some(d) => d,
        None => return Err(MapError::MissingVersion),
    };
    match MapItemCommonV0::from_slice(raw) {
        Some(v0) => {
            proof {
                assert(v0.ints()[0] == raw@[0]);
            }
            Ok(v0.version)
        },
        None => Err(MapError::EmptyVersion),
    }
}

/// The only version of maps that can be read is 1.
pub fn check_version(version: i32) -> (r: Result<(), MapError>)
    ensures
        r == (if version == 1 {
            Ok::<(), MapError>(())
        } else {
            Err(MapError::InvalidVersion(version))
        }),
{
    if version != 1 {
        return Err(MapError::InvalidVersion(version));
    }
    Ok(())
}

/// The bytes of `s` hold none of `/`, `\` and NUL.
pub open spec fn plain_file_name(s: Seq<u8>) -> bool {
    forall|i: int| 0 <= i < s.len() ==> s[i] != 0x2f && s[i] != 0x5c && s[i] != 0
}

/// The name of an image, stored at `data_index` as `raw`: a NUL-terminated
/// file name without path separators.
pub fn image_name_from_raw(raw: Vec<u8>, data_index: usize) -> (r: Result<Vec<u8>, MapError>)
    ensures
        raw@.len() >= 1 && raw@.last() == 0 && plain_file_name(raw@.drop_last()) ==> (r matches Ok(name)
            && name@ == raw@.drop_last()),
        !(raw@.len() >= 1 && raw@.last() == 0 && plain_file_name(raw@.drop_last()))
            ==> r == Err::<Vec<u8>, MapError>(MapError::MalformedImageName(data_index)),
{
    let ghost whole = raw@;
    let mut bytes = raw;
    match bytes.pop() {
        Some(0) => {},
        _ => return Err(MapError::MalformedImageName(data_index)),
    }
    let mut i: usize = 0;
    while i < bytes.len()
        invariant
            whole == raw@,
            whole.len() >= 1 && whole.last() == 0,
            bytes@ == whole.drop_last(),
            0 <= i <= bytes@.len(),
            forall|j: int| 0 <= j < i ==> bytes@[j] != 0x2f && bytes@[j] != 0x5c && bytes@[j] != 0,
        decreases bytes.len() - i,
    {
        let c = bytes[i];
        if c == 0x2f || c == 0x5c || c == 0 {
            assert(!plain_file_name(whole.drop_last()));
            return Err(MapError::MalformedImageName(data_index));
        }
        i += 1;
    }
    Ok(bytes)
}

/// A string stored as `raw`: NUL-terminated, with no other NUL.
pub fn string_from_raw(raw: Vec<u8>) -> (r: Result<Vec<u8>, MapError>)
    ensures
        !(raw@.len() >= 1 && raw@.last() == 0) ==> r == Err::<Vec<u8>, MapError>(
            MapError::InvalidStringMissingNullTermination,
        ),
        raw@.len() >= 1 && raw@.last() == 0 && !no_nul(raw@.drop_last()) ==> r == Err::<Vec<u8>, MapError>(
            MapError::InvalidStringNullTermination,
        ),
        raw@.len() >= 1 && raw@.last() == 0 && no_nul(raw@.drop_last()) ==> (r matches Ok(s) && s@
            == raw@.drop_last()),
{
    let ghost whole = raw@;
    let mut bytes = raw;
    match bytes.pop() {
        Some(0) => {},
        _ => return Err(MapError::InvalidStringMissingNullTermination),
    }
    let mut i: usize = 0;
    while i < bytes.len()
        invariant
            whole == raw@,
            whole.len() >= 1 && whole.last() == 0,
            bytes@ == whole.drop_last(),
            0 <= i <= bytes@.len(),
            forall|j: int| 0 <= j < i ==> bytes@[j] != 0,
        decreases bytes.len() - i,
    {
        if bytes[i] == 0 {
            assert(!no_nul(whole.drop_last()));
            return Err(MapError::InvalidStringNullTermination);
        }
        i += 1;
    }
    Ok(bytes)
}

/// The tiles stored as `raw`, four bytes each.
pub open spec fn tiles_of(raw: Seq<u8>) -> Seq<Tile> {
    Seq::new(
        raw.len() / 4,
        |k: int| Tile { index: raw[4 * k], flags: raw[4 * k + 1], skip: raw[4 * k + 2], reserved: raw[4 * k + 3] },
    )
}

/// The tiles of a layer, stored as `raw`.
pub fn tiles_from_raw(raw: &[u8]) -> (r: Result<Vec<Tile>, MapError>)
    ensures
        raw@.len() % 4 != 0 ==> r == Err::<Vec<Tile>, MapError>(MapError::InvalidTilesLength(raw@.len() as usize)),
        raw@.len() % 4 == 0 ==> (r matches Ok(tiles) && tiles@ == tiles_of(raw@)),
{
    if raw.len() % 4 != 0 {
        return Err(MapError::InvalidTilesLength(raw.len()));
    }
    let n = raw.len() / 4;
    assert(4 * n == raw@.len());
    let mut tiles: Vec<Tile> = Vec::new();
    let mut k: usize = 0;
    while k < n
        invariant
            n == raw@.len() / 4,
            4 * n == raw@.len(),
            n <= raw.len(),
            raw@.len() % 4 == 0,
            0 <= k <= n,
            tiles@.len() == k,
            forall|j: int| 0 <= j < k ==> #[trigger] tiles@[j] == tiles_of(raw@)[j],
        decreases n - k,
    {
        let b = 4 * k;
        tiles.push(Tile { index: raw[b], flags: raw[b + 1], skip: raw[b + 2], reserved: raw[b + 3] });
        k += 1;
    }
    assert(tiles@ =~= tiles_of(raw@));
    Ok(tiles)
}

/// The settings of a map: NUL-terminated commands, one after the other.
pub struct Settings {
    pub raw: Vec<u8>,
}

/// The settings stored as `raw`, which must end in NUL.
pub fn settings_from_raw(raw: Vec<u8>) -> (r: Result<Settings, MapError>)
    ensures
        raw@.len() >= 1 && raw@.last() == 0 ==> (r matches Ok(s) && s.raw@ == raw@),
        !(raw@.len() >= 1 && raw@.last() == 0) ==> r is Err && r == Err::<Settings, MapError>(
            MapError::InvalidSettingsMissingNullTermination,
        ),
{
    if raw.len() == 0 || raw[raw.len() - 1] != 0 {
        return Err(MapError::InvalidSettingsMissingNullTermination);
    }
    Ok(Settings { raw: raw })
}

/// The commands of settings, one at a time.
#[derive(Clone, Copy)]
pub struct SettingsIter<'a> {
    settings: &'a [u8],
    pos: usize,
}

impl<'a> SettingsIter<'a> {
    /// The bytes not yet walked.
    pub closed spec fn rest(&self) -> Seq<u8> {
        self.settings@.subrange(self.pos as int, self.settings@.len() as int)
    }

    #[verifier::type_invariant]
    spec fn inv(self) -> bool {
        self.pos <= self.settings@.len()
    }

    /// The next command: the bytes up to the next NUL, which is passed.
    /// Where no NUL is left, none, and the walk stays where it is.
    pub fn next(&mut self) -> (r: Option<&'a [u8]>)
        ensures
            match first_nul(old(self).rest()) {
                Some(i) => r matches Some(c) && c@ == old(self).rest().subrange(0, i)
                    && final(self).rest() == old(self).rest().subrange(i + 1, old(self).rest().len() as int),
                None => r is None && final(self).rest() == old(self).rest(),
            },
    {
        proof {
            use_type_invariant(&*self);
        }
        let settings = self.settings;
        let pos = self.pos;
        let n = settings.len();
        let (_done, rest) = settings.split_at(pos);
        assert(rest@ =~= old(self).rest());
        let mut i: usize = 0;
        while i < rest.len()
            invariant
                *self == *old(self),
                self.settings == settings,
                self.pos == pos,
                n == settings@.len(),
                pos <= settings@.len(),
                rest@.len() + pos == settings@.len(),
                rest@ == old(self).rest(),
                0 <= i <= rest@.len(),
                rest@ == settings@.subrange(pos as int, settings@.len() as int),
                forall|j: int| 0 <= j < i ==> rest@[j] != 0,
            decreases rest.len() - i,
        {
            if rest[i] == 0 {
                proof {
                    lemma_first_nul_at(rest@, i as int);
                }
                let (cmd, _after) = rest.split_at(i);
                self.pos = pos + i + 1;
                proof {
                    assert(self.rest() =~= rest@.subrange(i + 1, rest@.len() as int));
                }
                return Some(cmd);
            }
            i += 1;
        }
        assert(!exists|j: int| 0 <= j < rest@.len() && rest@[j] == 0);
        None
    }
}

impl Settings {
    /// A walk over the commands of the settings.
    pub fn iter(&self) -> (r: SettingsIter<'_>)
        ensures
            r.rest() == self.raw@,
    {
        let r = SettingsIter { settings: self.raw.as_slice(), pos: 0 };
        assert(r.rest() =~= self.raw@);
        r
    }
}

// ---------------------------------------------------------------------------
// Which integer of an item each field comes from.

/// A group takes its offset from `raw[1]` and `raw[2]`, its parallax from
/// `raw[3]` and `raw[4]`, and its `raw[6]` layers from `raw[5]` on.
pub proof fn lemma_group_fields(raw: Seq<i32>, layers: Range<usize>, g: Group)
    requires
        group_error(raw, layers) is None,
        group_ok(raw, layers, g),
    ensures
        g.offset_x == raw[1],
        g.offset_y == raw[2],
        g.parallax_x == raw[3],
        g.parallax_y == raw[4],
        g.layer_indices.start == layers.start + raw[5],
        g.layer_indices.end - g.layer_indices.start == raw[6],
{
}

/// An image takes its width from `raw[1]`, its height from `raw[2]`, its
/// name from data `raw[4]`, and, unless `raw[3]` says it is external, its
/// pixels from data `raw[5]`.
pub proof fn lemma_image_fields(raw: Seq<i32>, data: Range<usize>, i: Image)
    requires
        image_error(raw, data) is None,
        image_ok(raw, data, i),
    ensures
        i.width == raw[1],
        i.height == raw[2],
        i.name == data.start + raw[4],
        raw[3] != 0 ==> i.data is None,
        raw[3] == 0 ==> i.data == Some((data.start + raw[5]) as usize),
{
}

/// The info takes its author, version, credits and license from data
/// `raw[1]` to `raw[4]`, each absent where it is -1.
pub proof fn lemma_info_fields(raw: Seq<i32>, data: Range<usize>, i: Info)
    requires
        info_error(raw, data) is None,
        info_ok(raw, data, i),
    ensures
        raw[1] == -1 ==> i.author is None,
        raw[1] != -1 ==> i.author == Some((data.start + raw[1]) as usize),
        raw[2] == -1 ==> i.version is None,
        raw[2] != -1 ==> i.version == Some((data.start + raw[2]) as usize),
        raw[3] == -1 ==> i.credits is None,
        raw[3] != -1 ==> i.credits == Some((data.start + raw[3]) as usize),
        raw[4] == -1 ==> i.license is None,
        raw[4] != -1 ==> i.license == Some((data.start + raw[4]) as usize),
{
}

/// A tile layer takes its width from `raw[1]`, its height from `raw[2]`,
/// its kind from the flags `raw[3]` and its tiles from data `raw[11]`; a
/// drawn one takes its color from `raw[4]` to `raw[7]`: red, green, blue,
/// alpha.
pub proof fn lemma_tilemap_fields(
    raw: Seq<i32>,
    data: Range<usize>,
    envelopes: Range<usize>,
    images: Range<usize>,
    t: LayerTilemap,
)
    requires
        tilemap_error(raw, data, envelopes, images) is None,
        tilemap_ok(raw, data, envelopes, images, t),
    ensures
        t.width == raw[1],
        t.height == raw[2],
        raw[3] == 0 ==> (t.type_ matches LayerTilemapType::Normal(n) && {
            &&& n.color.red == raw[4]
            &&& n.color.green == raw[5]
            &&& n.color.blue == raw[6]
            &&& n.color.alpha == raw[7]
            &&& n.data == data.start + raw[11]
        }),
        raw[3] == 1 ==> t.type_ == LayerTilemapType::Game((data.start + raw[11]) as usize),
{
}

} // verus!
