//! Decoded forms of map items: what the raw integer items of a map say,
//! with data references and names spelled out.
use vstd::prelude::*;

verus! {

/// A rectangle of a map, in map units.
#[derive(Clone, Copy, Debug, PartialEq, Eq, Structural)]
pub struct Rectangle {
    pub x: i32,
    pub y: i32,
    pub w: i32,
    pub h: i32,
}

/// A color, one channel per field.
#[derive(Clone, Copy, Debug, PartialEq, Eq, Structural)]
pub struct Color {
    pub r: i32,
    pub g: i32,
    pub b: i32,
    pub a: i32,
}

/// A reference to a data item of the map file.
#[derive(Clone, Copy, Debug, PartialEq, Eq, Structural)]
pub struct DataIndex(pub usize);

/// The version item.
#[derive(Clone, Copy, Debug, PartialEq, Eq, Structural)]
pub struct MapItemVersion {
    pub version: i32,
}

/// The info item: references to the author, version, credits and license
/// texts, where present.
#[derive(Clone, Copy, Debug, PartialEq, Eq, Structural)]
pub struct MapItemInfo {
    pub author: Option<DataIndex>,
    pub map_version: Option<DataIndex>,
    pub credits: Option<DataIndex>,
    pub license: Option<DataIndex>,
}

/// The pixel format of an image.
#[derive(Clone, Copy, Debug, PartialEq, Eq, Structural)]
pub enum ImageFormat {
    ImageFormatRgb,
    ImageFormatRgba,
}

/// An image item.
#[derive(Clone, Copy, Debug, PartialEq, Eq, Structural)]
pub struct MapItemImage {
    pub width: i32,
    pub height: i32,
    pub external: bool,
    pub name: Option<DataIndex>,
    pub data: Option<DataIndex>,
    pub format: ImageFormat,
}

/// A group item.
#[derive(Clone, Copy, Debug, PartialEq, Eq)]
pub struct MapItemGroup {
    pub offset_x: i32,
    pub offset_y: i32,
    pub parallax_x: i32,
    pub parallax_y: i32,
    pub clipping: Option<Rectangle>,
    pub start_layer: i32,
    pub num_layers: u32,
    pub name: [u8; 12],
    pub name_length: usize,
}

/// The clipping of a group.
#[derive(Clone, Copy, Debug, PartialEq, Eq, Structural)]
pub struct MapItemGroupClip {}

/// A layer item: its flags and what kind of layer it is.
#[derive(Clone, Copy, Debug, PartialEq, Eq)]
pub struct MapItemLayer {
    pub flags: u32,
    pub kind: MapItemLayerKind,
}

/// The kinds of layers.
#[derive(Clone, Copy, Debug, PartialEq, Eq)]
pub enum MapItemLayerKind {
    LayerTilemap {
        flags: u32,
        width: i32,
        height: i32,
        color: Color,
        color_env: i32,
        color_env_offset: i32,
        image: i32,
        data: DataIndex,
        name: [u8; 12],
        name_length: usize,
    },
    LayerQuads {
        flags: u32,
        num_quads: i32,
        data: DataIndex,
        image: i32,
        name: [u8; 12],
        name_length: usize,
    },
}

/// An envelope item.
#[derive(Clone, Copy, Debug, PartialEq, Eq)]
pub struct MapItemEnvelope {
    pub channels: i32,
    pub start_points: i32,
    pub num_points: i32,
    pub synchronized: bool,
    pub name: [u8; 32],
    pub name_length: usize,
}

} // verus!
