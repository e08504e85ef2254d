//! The arithmetic of drawing a map: rectangles of tiles, mixing colors with
//! alpha, turning and flipping tiles, cropping to the tiles that are not
//! air and scaling tiles to fit an image of a given size.
use vstd::prelude::*;
use crate::map_format::Tile;

verus! {

/// A rectangle of tiles, `min` inclusive and `max` exclusive.
#[derive(Clone, Copy, Debug, PartialEq, Eq, Structural)]
pub struct Rect {
    pub min_x: u32,
    pub min_y: u32,
    pub max_x: u32,
    pub max_y: u32,
}

impl Rect {
    pub fn width(&self) -> (r: u32)
        requires
            self.min_x <= self.max_x,
        ensures
            r == self.max_x - self.min_x,
    {
        self.max_x - self.min_x
    }

    pub fn height(&self) -> (r: u32)
        requires
            self.min_y <= self.max_y,
        ensures
            r == self.max_y - self.min_y,
    {
        self.max_y - self.min_y
    }

    pub fn is_empty(&self) -> (r: bool)
        ensures
            r == (self.min_y >= self.max_y || self.min_x >= self.max_x),
    {
        self.min_y >= self.max_y || self.min_x >= self.max_x
    }
}

/// A color with alpha.
#[derive(Clone, Copy, Debug, PartialEq, Eq, Structural, Hash, Default)]
pub struct Color {
    pub red: u8,
    pub green: u8,
    pub blue: u8,
    pub alpha: u8,
}

/// One component scaled by another, both read as fractions of 255.
pub open spec fn mask_component(a: u8, b: u8) -> int {
    (a * b) / 255
}

/// The weighted mean of `num_a` and `num_b`, with weights `mix_a` and
/// `mix_b`; 0 where both weights are 0.
pub open spec fn mix_component(mix_a: int, num_a: u8, mix_b: int, num_b: u8) -> int {
    if mix_a == 0 && mix_b == 0 {
        0
    } else {
        (mix_a * num_a + mix_b * num_b) / (mix_a + mix_b)
    }
}

/// The weight of the color laid over another.
pub open spec fn over_weight(src: Color) -> int {
    src.alpha * 255
}

/// The weight of the color laid under another.
pub open spec fn under_weight(src: Color, dst: Color) -> int {
    dst.alpha * (255 - src.alpha)
}

proof fn lemma_mask_bound(a: u8, b: u8)
    ensures
        0 <= (a * b) / 255 <= 255,
        a * b <= 255 * 255,
{
    assert(a * b <= 255 * 255) by (nonlinear_arith)
        requires
            a <= 255,
            b <= 255,
    ;
    assert((a * b) / 255 <= 255) by (nonlinear_arith)
        requires
            0 <= a * b <= 255 * 255,
    ;
}

proof fn lemma_mix_bound(ma: int, na: u8, mb: int, nb: u8)
    requires
        0 <= ma,
        0 <= mb,
        ma + mb > 0,
    ensures
        0 <= (ma * na + mb * nb) / (ma + mb) <= 255,
{
    assert(0 <= ma * na + mb * nb <= 255 * (ma + mb)) by (nonlinear_arith)
        requires
            0 <= ma,
            0 <= mb,
            na <= 255,
            nb <= 255,
    ;
    assert(0 <= (ma * na + mb * nb) / (ma + mb) <= 255) by (nonlinear_arith)
        requires
            0 <= ma * na + mb * nb <= 255 * (ma + mb),
            ma + mb > 0,
    ;
}

fn mask_u8(a: u8, b: u8) -> (r: u8)
    ensures
        r == mask_component(a, b),
{
    proof {
        lemma_mask_bound(a, b);
    }
    ((a as u32) * (b as u32) / 255) as u8
}

fn mix(mix_a: u32, num_a: u8, mix_b: u32, num_b: u8) -> (r: u8)
    requires
        mix_a <= 255 * 255,
        mix_b <= 255 * 255,
    ensures
        r == mix_component(mix_a as int, num_a, mix_b as int, num_b),
{
    if mix_a == 0 && mix_b == 0 {
        return 0;
    }
    proof {
        lemma_mix_bound(mix_a as int, num_a, mix_b as int, num_b);
        assert(mix_a * num_a <= 255 * 255 * 255) by (nonlinear_arith)
            requires
                mix_a <= 255 * 255,
                num_a <= 255,
        ;
        assert(mix_b * num_b <= 255 * 255 * 255) by (nonlinear_arith)
            requires
                mix_b <= 255 * 255,
                num_b <= 255,
        ;
    }
    ((mix_a * (num_a as u32) + mix_b * (num_b as u32)) / (mix_a + mix_b)) as u8
}

impl Color {
    pub fn transparent() -> (r: Color)
        ensures
            r == (Color { red: 0, green: 0, blue: 0, alpha: 0 }),
    {
        Color { red: 0, green: 0, blue: 0, alpha: 0 }
    }

    pub fn white() -> (r: Color)
        ensures
            r == (Color { red: 255, green: 255, blue: 255, alpha: 255 }),
    {
        Color { red: 255, green: 255, blue: 255, alpha: 255 }
    }

    /// Each component scaled by that of `other`.
    pub fn mask(self, other: Color) -> (r: Color)
        ensures
            r.red == mask_component(self.red, other.red),
            r.green == mask_component(self.green, other.green),
            r.blue == mask_component(self.blue, other.blue),
            r.alpha == mask_component(self.alpha, other.alpha),
    {
        Color {
            red: mask_u8(self.red, other.red),
            green: mask_u8(self.green, other.green),
            blue: mask_u8(self.blue, other.blue),
            alpha: mask_u8(self.alpha, other.alpha),
        }
    }

    /// This color with `other` laid over it, by alpha blending.
    pub fn overlay_with(self, other: Color) -> (r: Color)
        ensures
            ({
                let wa = over_weight(other);
                let wb = under_weight(other, self);
                &&& r.red == mix_component(wa, other.red, wb, self.red)
                &&& r.green == mix_component(wa, other.green, wb, self.green)
                &&& r.blue == mix_component(wa, other.blue, wb, self.blue)
                &&& r.alpha == (wa + wb) / 255
            }),
    {
        let src = other;
        let dst = self;
        let mix_a: u32 = (src.alpha as u32) * 255;
        proof {
            assert(dst.alpha * (255 - src.alpha) <= 255 * 255) by (nonlinear_arith)
                requires
                    dst.alpha <= 255,
                    src.alpha <= 255,
            ;
            assert(src.alpha * 255 + dst.alpha * (255 - src.alpha) <= 255 * 255) by (nonlinear_arith)
                requires
                    dst.alpha <= 255,
                    src.alpha <= 255,
            ;
        }
        let mix_b: u32 = (dst.alpha as u32) * (255 - src.alpha as u32);
        Color {
            red: mix(mix_a, src.red, mix_b, dst.red),
            green: mix(mix_a, src.green, mix_b, dst.green),
            blue: mix(mix_a, src.blue, mix_b, dst.blue),
            alpha: ((mix_a + mix_b) / 255) as u8,
        }
    }
}

/// Laying a fully opaque color over any color gives the opaque color.
pub proof fn lemma_overlay_opaque(dst: Color, src: Color)
    requires
        src.alpha == 255,
    ensures
        mix_component(over_weight(src), src.red, under_weight(src, dst), dst.red) == src.red,
        (over_weight(src) + under_weight(src, dst)) / 255 == 255,
{
    assert(under_weight(src, dst) == 0);
    assert(over_weight(src) == 255 * 255);
    assert((65025int * src.red) / 65025int == src.red as int) by (nonlinear_arith);
}

/// The position a pixel `(iy, ix)` of a tile of `tile_len` pixels moves to
/// when the tile is turned and flipped.
pub open spec fn transformed(iy: u32, ix: u32, rotate: bool, vflip: bool, hflip: bool, tile_len: u32) -> (int, int) {
    let (y1, x1) = if rotate {
        ((tile_len - 1) - ix, iy as int)
    } else {
        (iy as int, ix as int)
    };
    let x2 = if vflip {
        (tile_len - 1) - x1
    } else {
        x1
    };
    let y2 = if hflip {
        (tile_len - 1) - y1
    } else {
        y1
    };
    (y2, x2)
}

pub fn transform_coordinates(coords: (u32, u32), rotate: bool, vflip: bool, hflip: bool, tile_len: u32) -> (r: (u32, u32))
    requires
        coords.0 < tile_len,
        coords.1 < tile_len,
    ensures
        (r.0 as int, r.1 as int) == transformed(coords.0, coords.1, rotate, vflip, hflip, tile_len),
        r.0 < tile_len,
        r.1 < tile_len,
{
    let (mut iy, mut ix) = coords;
    if rotate {
        let old_ix = ix;
        ix = iy;
        iy = (tile_len - 1) - old_ix;
    }
    if vflip {
        ix = (tile_len - 1) - ix;
    }
    if hflip {
        iy = (tile_len - 1) - iy;
    }
    (iy, ix)
}

/// `s` names a file without leaving its directory: no `/` and no `\`.
pub fn sanitize(s: &str) -> (r: Option<&str>)
    ensures
        r is Some <==> (forall|i: int| 0 <= i < s@.len() ==> s@[i] != '/' && s@[i] != '\\'),
        r matches Some(t) ==> t@ == s@,
{
    let n = s.unicode_len();
    let mut i: usize = 0;
    while i < n
        invariant
            n == s@.len(),
            i <= n,
            forall|k: int| 0 <= k < i ==> s@[k] != '/' && s@[k] != '\\',
        decreases n - i,
    {
        let c = s.get_char(i);
        if c == '/' || c == '\\' {
            return None;
        }
        i = i + 1;
    }
    Some(s)
}

/// The side of a tile, in pixels: from 64 down, halved until the cropped
/// map fits sixteen times the area of an image `size` pixels wide.
pub open spec fn scaled_tile_len(t: int, w: int, h: int, size: int) -> int
    decreases t,
{
    if t <= 1 || t * t * w * h <= 16 * size * size {
        t
    } else {
        scaled_tile_len(t / 2, w, h, size)
    }
}

pub fn scale_tile_len(crop: &Rect, size: u32) -> (r: u32)
    requires
        crop.min_x <= crop.max_x,
        crop.min_y <= crop.max_y,
        64 * 64 * (crop.max_x - crop.min_x) <= u32::MAX,
        64 * 64 * (crop.max_x - crop.min_x) * (crop.max_y - crop.min_y) <= u32::MAX,
        16 * size * size <= u32::MAX,
    ensures
        r == scaled_tile_len(64, (crop.max_x - crop.min_x) as int, (crop.max_y - crop.min_y) as int, size as int),
{
    let w = crop.width();
    let h = crop.height();
    let mut tile_len: u32 = 64;
    loop
        invariant
            1 <= tile_len <= 64,
            64 * 64 * w <= u32::MAX,
            64 * 64 * w * h <= u32::MAX,
            16 * size * size <= u32::MAX,
            scaled_tile_len(64, w as int, h as int, size as int) == scaled_tile_len(tile_len as int, w as int, h as int, size as int),
        ensures
            scaled_tile_len(64, w as int, h as int, size as int) == tile_len,
        decreases tile_len,
    {
        if tile_len == 1 {
            break;
        }
        proof {
            assert(tile_len * tile_len <= 64 * 64) by (nonlinear_arith)
                requires
                    1 <= tile_len <= 64,
            ;
            assert(tile_len * tile_len * w <= 64 * 64 * w) by (nonlinear_arith)
                requires
                    tile_len * tile_len <= 64 * 64,
            ;
            assert(tile_len * tile_len * w * h <= 64 * 64 * w * h) by (nonlinear_arith)
                requires
                    tile_len * tile_len * w <= 64 * 64 * w,
            ;
            assert(16 * size <= u32::MAX) by (nonlinear_arith)
                requires
                    16 * size * size <= u32::MAX,
            ;
        }
        let area = tile_len * tile_len * w * h;
        let limit = 16 * size * size;
        if area <= limit {
            break;
        }
        tile_len = tile_len / 2;
    }
    tile_len
}

/// The tiles of a layer, row by row.
pub struct TileGrid {
    pub width: usize,
    pub height: usize,
    pub tiles: Vec<Tile>,
}

/// The smallest rectangle holding the tiles of `grid` whose index is not
/// 0 (air), grown by `crop`.
pub open spec fn grow_to_tiles(crop: Rect, tiles: Seq<Tile>, width: int, n: int) -> Rect
    decreases n,
{
    if n <= 0 {
        crop
    } else {
        let c = grow_to_tiles(crop, tiles, width, n - 1);
        let k = n - 1;
        let y = k / width;
        let x = k % width;
        if tiles[k].index != 0 {
            Rect {
                min_y: if y < c.min_y { y as u32 } else { c.min_y },
                min_x: if x < c.min_x { x as u32 } else { c.min_x },
                max_y: if y + 1 > c.max_y { (y + 1) as u32 } else { c.max_y },
                max_x: if x + 1 > c.max_x { (x + 1) as u32 } else { c.max_x },
            }
        } else {
            c
        }
    }
}

/// The crop holding the tiles of `layers` that are not air.
pub open spec fn crop_of(layers: Seq<TileGrid>, n: int) -> Rect
    decreases n,
{
    if n <= 0 {
        Rect { min_x: u32::MAX, max_x: 0, min_y: u32::MAX, max_y: 0 }
    } else {
        let g = layers[n - 1];
        grow_to_tiles(crop_of(layers, n - 1), g.tiles@, g.width as int, g.tiles@.len() as int)
    }
}

/// The rectangle holding all tiles of `layers` that are not air; empty
/// (with `min` above `max`) where there is none.
pub fn crop_to_fit_nonair_tiles(layers: &[TileGrid]) -> (r: Rect)
    requires
        forall|i: int| 0 <= i < layers@.len() ==> {
            let g = #[trigger] layers@[i];
            &&& g.width > 0
            &&& g.tiles@.len() == g.width * g.height
            &&& g.width < u32::MAX
            &&& g.height < u32::MAX
        },
    ensures
        r == crop_of(layers@, layers@.len() as int),
{
    let mut crop = Rect { min_x: u32::MAX, max_x: 0, min_y: u32::MAX, max_y: 0 };
    let mut l: usize = 0;
    while l < layers.len()
        invariant
            l <= layers@.len(),
            crop == crop_of(layers@, l as int),
            forall|i: int| 0 <= i < layers@.len() ==> {
                let g = #[trigger] layers@[i];
                &&& g.width > 0
                &&& g.tiles@.len() == g.width * g.height
                &&& g.width < u32::MAX
                &&& g.height < u32::MAX
            },
        decreases layers.len() - l,
    {
        let g = &layers[l];
        let ghost start = crop;
        let mut k: usize = 0;
        let mut y: usize = 0;
        let mut x: usize = 0;
        while k < g.tiles.len()
            invariant
                g.width > 0,
                g.tiles@.len() == g.width * g.height,
                g.width < u32::MAX,
                g.height < u32::MAX,
                k <= g.tiles@.len(),
                x < g.width,
                k == y * g.width + x,
                crop == grow_to_tiles(start, g.tiles@, g.width as int, k as int),
            decreases g.tiles.len() - k,
        {
            proof {
                assert(y == k as int / g.width as int && x == k as int % g.width as int) by (nonlinear_arith)
                    requires
                        k == y * g.width + x,
                        x < g.width,
                        g.width > 0,
                ;
                assert(y < g.height) by (nonlinear_arith)
                    requires
                        k == y * g.width + x,
                        k < g.width * g.height,
                        g.width > 0,
                ;
            }
            if g.tiles[k].index != 0 {
                let yy = y as u32;
                let xx = x as u32;
                if yy < crop.min_y {
                    crop.min_y = yy;
                }
                if xx < crop.min_x {
                    crop.min_x = xx;
                }
                if yy + 1 > crop.max_y {
                    crop.max_y = yy + 1;
                }
                if xx + 1 > crop.max_x {
                    crop.max_x = xx + 1;
                }
            }
            k = k + 1;
            x = x + 1;
            if x == g.width {
                proof {
                    assert(k == (y + 1) * g.width) by (nonlinear_arith)
                        requires
                            k == y * g.width + x,
                            x == g.width,
                    ;
                }
                x = 0;
                y = y + 1;
            }
        }
        l = l + 1;
    }
    crop
}

/// The short name of the entity with tile index `index`.
pub open spec fn entity_name_spec(index: u8) -> Option<&'static str> {
    if index == 0x00 {
        Some("None")
    } else if index == 0x01 {
        Some("Coll")
    } else if index == 0x02 {
        Some("Deat")
    } else if index == 0x03 {
        Some("Unho")
    } else if index == 0xc0 {
        Some("SpBr")
    } else if index == 0xc1 {
        Some("SpRe")
    } else if index == 0xc2 {
        Some("SpBl")
    } else if index == 0xc3 {
        Some("FlRe")
    } else if index == 0xc4 {
        Some("FlBl")
    } else if index == 0xc5 {
        Some("Shie")
    } else if index == 0xc6 {
        Some("Hear")
    } else if index == 0xc7 {
        Some("Shot")
    } else if index == 0xc8 {
        Some("Gren")
    } else if index == 0xc9 {
        Some("Ninj")
    } else if index == 0xca {
        Some("Lase")
    } else {
        None
    }
}

/// The short name of the entity with tile index `index`, if it is one.
pub fn entity_name(index: u8) -> (r: Option<&'static str>)
    ensures
        r == entity_name_spec(index),
{
    match index {
        0x00 => Some("None"),
        0x01 => Some("Coll"),
        0x02 => Some("Deat"),
        0x03 => Some("Unho"),
        0xc0 => Some("SpBr"),
        0xc1 => Some("SpRe"),
        0xc2 => Some("SpBl"),
        0xc3 => Some("FlRe"),
        0xc4 => Some("FlBl"),
        0xc5 => Some("Shie"),
        0xc6 => Some("Hear"),
        0xc7 => Some("Shot"),
        0xc8 => Some("Gren"),
        0xc9 => Some("Ninj"),
        0xca => Some("Lase"),
        _ => None,
    }
}

} // verus!
