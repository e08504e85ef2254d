//! Reading a map from its datafile: the version, the info, the groups,
//! layers and images, and the game layers.
use vstd::prelude::*;
use crate::datafile_raw::{
    DatafileReader, first_id, high16, item_data, low16, run_num, run_start,
};
use crate::map_format::{
    MAP_ITEMTYPE_DDRACE_SOUND, MAP_ITEMTYPE_ENVELOPE, MAP_ITEMTYPE_GROUP, MAP_ITEMTYPE_IMAGE,
    MAP_ITEMTYPE_INFO, MAP_ITEMTYPE_LAYER, MAP_ITEMTYPE_VERSION,
};
use crate::map_format::MAP_ITEMTYPE_LAYER_V1_TILEMAP;
use crate::map_reader::{
    GameLayers, Group, Image, Info, Layer, LayerTilemap, LayerTilemapType, LayerType, MapError,
    check_version, group_error, group_ok, image_error, image_ok, info_error, info_ok,
    layer_error, layer_ok, layer_rest, tilemap_type, version_from_raw,
};
use std::ops::Range;

verus! {

/// The data of item `k` of the datafile `d`.
pub open spec fn item_raw(d: DatafileReader, k: int) -> Seq<i32> {
    item_data(d.spec_items_raw(), d.spec_item_offsets()[k] as int)
}

/// The type id of item `k` of the datafile `d`.
pub open spec fn item_type_of(d: DatafileReader, k: int) -> u16 {
    high16(d.spec_items_raw()[d.spec_item_offsets()[k] / 4])
}

/// The items of type `t` of the datafile `d`.
pub open spec fn type_range(d: DatafileReader, t: u16) -> Range<usize> {
    Range {
        start: run_start(d.spec_types(), t) as usize,
        end: (run_start(d.spec_types(), t) + run_num(d.spec_types(), t)) as usize,
    }
}

/// All data of the datafile `d`.
pub open spec fn data_range(d: DatafileReader) -> Range<usize> {
    Range { start: 0, end: d.spec_data_offsets().len() as usize }
}

/// The data of the first item of type `t` and id `id`, if there is one.
pub open spec fn find_raw(d: DatafileReader, t: u16, id: u16) -> Option<Seq<i32>> {
    let raw = d.spec_items_raw();
    let offs = d.spec_item_offsets();
    let start = run_start(d.spec_types(), t);
    let num = run_num(d.spec_types(), t);
    if forall|k: int| 0 <= k < num ==> low16(raw[#[trigger] offs[start + k] / 4]) != id {
        None
    } else {
        Some(item_data(raw, offs[start + first_id(raw, offs, start, num, id)] as int))
    }
}

// ---------------------------------------------------------------------------
// The search for the game layers.

/// What the search for the game layers has found so far: the game group
/// with the width and height of its game layers, and the data of each kind
/// of game layer.
#[derive(Clone, Copy)]
pub struct GameFound {
    pub at: Option<(usize, u32, u32)>,
    pub game: Option<usize>,
    pub teleport: Option<usize>,
    pub speedup: Option<usize>,
    pub front: Option<usize>,
    pub switch: Option<usize>,
    pub tune: Option<usize>,
}

/// Nothing found yet.
pub open spec fn nothing_found() -> GameFound {
    GameFound {
        at: None,
        game: None,
        teleport: None,
        speedup: None,
        front: None,
        switch: None,
        tune: None,
    }
}

/// The slot `slot` after a layer with data `new` of its kind: a second
/// layer of one kind is refused.
pub open spec fn put_slot(slot: Option<usize>, new: usize) -> Result<Option<usize>, MapError> {
    match slot {
        None => Ok(Some(new)),
        Some(_) => Err(MapError::TooManyGameLayers),
    }
}

/// What was found, after a tile layer of kind `kind` has filled its slot.
pub open spec fn put_kind(s: GameFound, kind: LayerTilemapType) -> Result<GameFound, MapError> {
    match kind {
        LayerTilemapType::Normal(_) => Ok(s),
        LayerTilemapType::Game(d) => match put_slot(s.game, d) {
            Ok(o) => Ok(GameFound { game: o, ..s }),
            Err(e) => Err(e),
        },
        LayerTilemapType::RaceTeleport(d, _) => match put_slot(s.teleport, d) {
            Ok(o) => Ok(GameFound { teleport: o, ..s }),
            Err(e) => Err(e),
        },
        LayerTilemapType::RaceSpeedup(d, _) => match put_slot(s.speedup, d) {
            Ok(o) => Ok(GameFound { speedup: o, ..s }),
            Err(e) => Err(e),
        },
        LayerTilemapType::DdraceFront(d, _) => match put_slot(s.front, d) {
            Ok(o) => Ok(GameFound { front: o, ..s }),
            Err(e) => Err(e),
        },
        LayerTilemapType::DdraceSwitch(d, _) => match put_slot(s.switch, d) {
            Ok(o) => Ok(GameFound { switch: o, ..s }),
            Err(e) => Err(e),
        },
        LayerTilemapType::DdraceTune(d, _) => match put_slot(s.tune, d) {
            Ok(o) => Ok(GameFound { tune: o, ..s }),
            Err(e) => Err(e),
        },
    }
}

/// What was found, after a tile layer of group `i` with the given size and
/// kind: the drawn layers are passed over; the game layers must all lie in
/// one group and have one size.
pub open spec fn tile_step(
    s: GameFound,
    i: usize,
    width: u32,
    height: u32,
    kind: LayerTilemapType,
) -> Result<GameFound, MapError> {
    if kind is Normal {
        Ok(s)
    } else {
        match put_kind(s, kind) {
            Err(e) => Err(e),
            Ok(s2) => match s2.at {
                Some((k, w, h)) => if i != k {
                    Err(MapError::TooManyGameGroups)
                } else if w != width || h != height {
                    Err(MapError::InconsistentGameLayerDimensions)
                } else {
                    Ok(s2)
                },
                None => Ok(GameFound { at: Some((i, width, height)), ..s2 }),
            },
        }
    }
}

/// Why the layer item `k` is refused, if it is.
#[verifier::opaque]
pub open spec fn layer_refused(d: DatafileReader, k: int) -> Option<MapError> {
    match layer_error(
        item_raw(d, k),
        data_range(d),
        type_range(d, MAP_ITEMTYPE_ENVELOPE),
        type_range(d, MAP_ITEMTYPE_IMAGE),
        type_range(d, MAP_ITEMTYPE_DDRACE_SOUND),
    ) {
        Some(e) => Some(MapError::Layer(k as usize, e)),
        None => None,
    }
}

/// The width, height and kind of the layer item `k`, where it is a tile
/// layer.
#[verifier::opaque]
pub open spec fn layer_tiles(d: DatafileReader, k: int) -> Option<(u32, u32, LayerTilemapType)> {
    let raw = item_raw(d, k);
    let rest = layer_rest(raw);
    if raw[1] == MAP_ITEMTYPE_LAYER_V1_TILEMAP {
        Some((
            rest[1] as u32,
            rest[2] as u32,
            tilemap_type(
                rest,
                data_range(d),
                type_range(d, MAP_ITEMTYPE_ENVELOPE),
                type_range(d, MAP_ITEMTYPE_IMAGE),
            ),
        ))
    } else {
        None
    }
}

/// What was found, after the layer item `k` of group `i`.
pub open spec fn scan_layer(d: DatafileReader, s: GameFound, i: usize, k: int) -> Result<GameFound, MapError> {
    match layer_refused(d, k) {
        Some(e) => Err(e),
        None => match layer_tiles(d, k) {
            Some((w, h, kind)) => tile_step(s, i, w, h, kind),
            None => Ok(s),
        },
    }
}

/// What was found, after the layer items `from..to` of group `i`.
pub open spec fn scan_layers(
    d: DatafileReader,
    s: GameFound,
    i: usize,
    from: int,
    to: int,
) -> Result<GameFound, MapError>
    decreases to - from,
{
    if to <= from {
        Ok(s)
    } else {
        match scan_layers(d, s, i, from, to - 1) {
            Err(e) => Err(e),
            Ok(s2) => scan_layer(d, s2, i, to - 1),
        }
    }
}

/// What was found, after the group item `i` and its layers.
#[verifier::opaque]
pub open spec fn scan_group(d: DatafileReader, s: GameFound, i: int) -> Result<GameFound, MapError> {
    let raw = item_raw(d, i);
    let layers = type_range(d, MAP_ITEMTYPE_LAYER);
    match group_error(raw, layers) {
        Some(e) => Err(MapError::Group(i as usize, e)),
        None => scan_layers(d, s, i as usize, layers.start + raw[5], layers.start + raw[5] + raw[6]),
    }
}

/// What was found, after the group items `from..to`.
pub open spec fn scan_groups(d: DatafileReader, s: GameFound, from: int, to: int) -> Result<GameFound, MapError>
    decreases to - from,
{
    if to <= from {
        Ok(s)
    } else {
        match scan_groups(d, s, from, to - 1) {
            Err(e) => Err(e),
            Ok(s2) => scan_group(d, s2, to - 1),
        }
    }
}

/// Once a layer is refused, the layers after it change nothing.
proof fn lemma_scan_layers_err(d: DatafileReader, s: GameFound, i: usize, from: int, mid: int, to: int)
    requires
        from < mid <= to,
        scan_layers(d, s, i, from, mid) is Err,
    ensures
        scan_layers(d, s, i, from, to) == scan_layers(d, s, i, from, mid),
    decreases to - mid,
{
    if mid < to {
        lemma_scan_layers_err(d, s, i, from, mid, to - 1);
    }
}

/// Once a group is refused, the groups after it change nothing.
proof fn lemma_scan_groups_err(d: DatafileReader, s: GameFound, from: int, mid: int, to: int)
    requires
        from < mid <= to,
        scan_groups(d, s, from, mid) is Err,
    ensures
        scan_groups(d, s, from, to) == scan_groups(d, s, from, mid),
    decreases to - mid,
{
    if mid < to {
        lemma_scan_groups_err(d, s, from, mid, to - 1);
    }
}

/// Scanning layers keeps the game group once found, finds it only in the
/// group scanned, and finds a game layer only together with it.
proof fn lemma_scan_layers_at(d: DatafileReader, s: GameFound, i: usize, from: int, to: int)
    requires
        s.game is Some ==> s.at is Some,
    ensures
        scan_layers(d, s, i, from, to) matches Ok(s2) ==> {
            &&& s2.game is Some ==> s2.at is Some
            &&& s.at is Some ==> s2.at == s.at
            &&& s.at is None ==> (s2.at is None || (s2.at matches Some((k, _, _)) && k == i))
        },
    decreases to - from,
{
    if from < to {
        lemma_scan_layers_at(d, s, i, from, to - 1);
    }
}

/// The slot `slot` after a layer with data `new` of its kind.
fn put_slot_exec(slot: Option<usize>, new: usize) -> (r: Result<Option<usize>, MapError>)
    ensures
        r == put_slot(slot, new),
{
    match slot {
        None => Ok(Some(new)),
        Some(_) => Err(MapError::TooManyGameLayers),
    }
}

/// What was found, after the tile layer `t` of group `i`.
fn scan_tilemap(s: GameFound, i: usize, t: &LayerTilemap) -> (r: Result<GameFound, MapError>)
    ensures
        r == tile_step(s, i, t.width, t.height, t.type_),
{
    let mut s = s;
    let put = match t.type_ {
        LayerTilemapType::Normal(_) => {
            return Ok(s);
        },
        LayerTilemapType::Game(d) => match put_slot_exec(s.game, d) {
            Ok(o) => { s.game = o; Ok(()) },
            Err(e) => Err(e),
        },
        LayerTilemapType::RaceTeleport(d, _) => match put_slot_exec(s.teleport, d) {
            Ok(o) => { s.teleport = o; Ok(()) },
            Err(e) => Err(e),
        },
        LayerTilemapType::RaceSpeedup(d, _) => match put_slot_exec(s.speedup, d) {
            Ok(o) => { s.speedup = o; Ok(()) },
            Err(e) => Err(e),
        },
        LayerTilemapType::DdraceFront(d, _) => match put_slot_exec(s.front, d) {
            Ok(o) => { s.front = o; Ok(()) },
            Err(e) => Err(e),
        },
        LayerTilemapType::DdraceSwitch(d, _) => match put_slot_exec(s.switch, d) {
            Ok(o) => { s.switch = o; Ok(()) },
            Err(e) => Err(e),
        },
        LayerTilemapType::DdraceTune(d, _) => match put_slot_exec(s.tune, d) {
            Ok(o) => { s.tune = o; Ok(()) },
            Err(e) => Err(e),
        },
    };
    if let Err(e) = put {
        return Err(e);
    }
    match s.at {
        Some((k, w, h)) => {
            if i != k {
                return Err(MapError::TooManyGameGroups);
            }
            if w != t.width || h != t.height {
                return Err(MapError::InconsistentGameLayerDimensions);
            }
        },
        None => {
            s.at = Some((i, t.width, t.height));
        },
    }
    Ok(s)
}

/// A map, read from its datafile.
pub struct Reader {
    reader: DatafileReader,
}

impl Reader {
    /// The datafile.
    pub closed spec fn df(&self) -> DatafileReader {
        self.reader
    }

    /// The map in the datafile `reader`.
    pub fn from_datafile(reader: DatafileReader) -> (r: Reader)
        ensures
            r.df() == reader,
    {
        Reader { reader }
    }

    /// The data of the first item of type `t` and id `id`.
    fn find(&self, t: u16, id: u16) -> (r: Option<&[i32]>)
        requires
            self.df().wf(),
        ensures
            match find_raw(self.df(), t, id) {
                Some(raw) => r matches Some(x) && x@ == raw,
                None => r is None,
            },
    {
        match self.reader.item_find(t, id) {
            Some(item) => Some(item.data),
            None => None,
        }
    }

    /// The version of the map.
    pub fn version(&self) -> (r: Result<i32, MapError>)
        requires
            self.df().wf(),
        ensures
            r == (match find_raw(self.df(), MAP_ITEMTYPE_VERSION, 0) {
                None => Err::<i32, MapError>(MapError::MissingVersion),
                Some(d) => if d.len() == 0 {
                    Err(MapError::EmptyVersion)
                } else {
                    Ok(d[0])
                },
            }),
    {
        version_from_raw(self.find(MAP_ITEMTYPE_VERSION, 0))
    }

    /// Whether the map has version 1, the only one there is.
    pub fn check_version(&self) -> (r: Result<(), MapError>)
        requires
            self.df().wf(),
        ensures
            r == (match find_raw(self.df(), MAP_ITEMTYPE_VERSION, 0) {
                None => Err::<(), MapError>(MapError::MissingVersion),
                Some(d) => if d.len() == 0 {
                    Err(MapError::EmptyVersion)
                } else if d[0] != 1 {
                    Err(MapError::InvalidVersion(d[0]))
                } else {
                    Ok(())
                },
            }),
    {
        let v = self.version()?;
        check_version(v)
    }

    /// The info of the map.
    pub fn info(&self) -> (r: Result<Info, MapError>)
        requires
            self.df().wf(),
        ensures
            match find_raw(self.df(), MAP_ITEMTYPE_INFO, 0) {
                None => r == Err::<Info, MapError>(MapError::MissingInfo),
                Some(raw) => match info_error(raw, data_range(self.df())) {
                    Some(e) => r == Err::<Info, MapError>(MapError::Info(e)),
                    None => r matches Ok(i) && info_ok(raw, data_range(self.df()), i),
                },
            },
    {
        let raw = match self.find(MAP_ITEMTYPE_INFO, 0) {
            Some(raw) => raw,
            None => {
                return Err(MapError::MissingInfo);
            },
        };
        let data = Range { start: 0, end: self.reader.num_data() };
        match Info::from_raw(raw, data) {
            Ok(i) => Ok(i),
            Err(e) => Err(MapError::Info(e)),
        }
    }

    /// The items of type `t`.
    fn type_indices(&self, t: u16) -> (r: Range<usize>)
        requires
            self.df().wf(),
        ensures
            r == type_range(self.df(), t),
            r.start <= r.end <= self.df().spec_item_offsets().len(),
    {
        let (start, num) = self.reader.item_type_indexes_start_num(t);
        Range { start, end: start + num }
    }

    /// The groups.
    pub fn group_indices(&self) -> (r: Range<usize>)
        requires
            self.df().wf(),
        ensures
            r == type_range(self.df(), MAP_ITEMTYPE_GROUP),
            r.start <= r.end <= self.df().spec_item_offsets().len(),
    {
        self.type_indices(MAP_ITEMTYPE_GROUP)
    }

    /// The group that item `index` holds.
    pub fn group(&self, index: usize) -> (r: Result<Group, MapError>)
        requires
            self.df().wf(),
            index < self.df().spec_item_offsets().len(),
            item_type_of(self.df(), index as int) == MAP_ITEMTYPE_GROUP,
        ensures
            match group_error(item_raw(self.df(), index as int), type_range(self.df(), MAP_ITEMTYPE_LAYER)) {
                Some(e) => r == Err::<Group, MapError>(MapError::Group(index, e)),
                None => r matches Ok(g) && group_ok(
                    item_raw(self.df(), index as int),
                    type_range(self.df(), MAP_ITEMTYPE_LAYER),
                    g,
                ),
            },
    {
        let raw = self.reader.item(index);
        let layers = self.type_indices(MAP_ITEMTYPE_LAYER);
        match Group::from_raw(raw.data, layers) {
            Ok(g) => Ok(g),
            Err(e) => Err(MapError::Group(index, e)),
        }
    }

    /// The layer that item `index` holds.
    pub fn layer(&self, index: usize) -> (r: Result<Layer, MapError>)
        requires
            self.df().wf(),
            index < self.df().spec_item_offsets().len(),
            item_type_of(self.df(), index as int) == MAP_ITEMTYPE_LAYER,
        ensures
            ({
                let raw = item_raw(self.df(), index as int);
                let data = data_range(self.df());
                let env = type_range(self.df(), MAP_ITEMTYPE_ENVELOPE);
                let img = type_range(self.df(), MAP_ITEMTYPE_IMAGE);
                let snd = type_range(self.df(), MAP_ITEMTYPE_DDRACE_SOUND);
                match layer_error(raw, data, env, img, snd) {
                    Some(e) => r == Err::<Layer, MapError>(MapError::Layer(index, e)),
                    None => r matches Ok(l) && layer_ok(raw, data, env, img, snd, l),
                }
            }),
    {
        let raw = self.reader.item(index);
        let data = Range { start: 0, end: self.reader.num_data() };
        let env = self.type_indices(MAP_ITEMTYPE_ENVELOPE);
        let img = self.type_indices(MAP_ITEMTYPE_IMAGE);
        let snd = self.type_indices(MAP_ITEMTYPE_DDRACE_SOUND);
        match Layer::from_raw(raw.data, data, env, img, snd) {
            Ok(l) => Ok(l),
            Err(e) => Err(MapError::Layer(index, e)),
        }
    }

    /// The image that item `index` holds.
    pub fn image(&self, index: usize) -> (r: Result<Image, MapError>)
        requires
            self.df().wf(),
            index < self.df().spec_item_offsets().len(),
        ensures
            match image_error(item_raw(self.df(), index as int), data_range(self.df())) {
                Some(e) => r == Err::<Image, MapError>(MapError::Image(index, e)),
                None => r matches Ok(i) && image_ok(item_raw(self.df(), index as int), data_range(self.df()), i),
            },
    {
        let raw = self.reader.item(index);
        let data = Range { start: 0, end: self.reader.num_data() };
        match Image::from_raw(raw.data, data) {
            Ok(i) => Ok(i),
            Err(e) => Err(MapError::Image(index, e)),
        }
    }
    /// What was found, after the layer item `k` of group `i`.
    fn scan_layer_exec(&self, s: GameFound, i: usize, k: usize) -> (r: Result<GameFound, MapError>)
        requires
            self.df().wf(),
            k < self.df().spec_item_offsets().len(),
            item_type_of(self.df(), k as int) == MAP_ITEMTYPE_LAYER,
        ensures
            r == scan_layer(self.df(), s, i, k as int),
    {
        proof {
            reveal(layer_refused);
            reveal(layer_tiles);
        }
        let layer = match self.layer(k) {
            Ok(l) => l,
            Err(e) => {
                return Err(e);
            },
        };
        match layer.t {
            LayerType::Tilemap(tilemap) => scan_tilemap(s, i, &tilemap),
            _ => Ok(s),
        }
    }

    /// What was found, after the layers of the group `group`, item `i`.
    fn scan_group_layers(&self, s: GameFound, i: usize, group: &Group) -> (r: Result<GameFound, MapError>)
        requires
            self.df().wf(),
            type_range(self.df(), MAP_ITEMTYPE_LAYER).start <= group.layer_indices.start,
            group.layer_indices.end <= type_range(self.df(), MAP_ITEMTYPE_LAYER).end,
        ensures
            r == scan_layers(
                self.df(),
                s,
                i,
                group.layer_indices.start as int,
                group.layer_indices.end as int,
            ),
    {
        let ghost d = self.df();
        let ghost layers = type_range(d, MAP_ITEMTYPE_LAYER);
        let start = group.layer_indices.start;
        let end = group.layer_indices.end;
        let mut cur = s;
        let mut k = start;
        if end <= start {
            return Ok(cur);
        }
        while k < end
            invariant
                d == self.df(),
                d.wf(),
                layers == type_range(d, MAP_ITEMTYPE_LAYER),
                layers.start <= start <= k <= end <= layers.end,
                start == group.layer_indices.start,
                end == group.layer_indices.end,
                scan_layers(d, s, i, start as int, k as int) == Ok::<GameFound, MapError>(cur),
            decreases end - k,
        {
            proof {
                self.reader.lemma_run_type(MAP_ITEMTYPE_LAYER, k as int);
            }
            match self.scan_layer_exec(cur, i, k) {
                Ok(s2) => {
                    cur = s2;
                },
                Err(e) => {
                    proof {
                        assert(scan_layers(d, s, i, start as int, k + 1) == Err::<GameFound, MapError>(e));
                        lemma_scan_layers_err(d, s, i, start as int, k + 1, end as int);
                    }
                    return Err(e);
                },
            }
            k = k + 1;
        }
        Ok(cur)
    }

    /// What was found, after the group item `i` and its layers.
    fn scan_group_exec(&self, s: GameFound, i: usize) -> (r: (Result<GameFound, MapError>, Option<Group>))
        requires
            self.df().wf(),
            i < self.df().spec_item_offsets().len(),
            item_type_of(self.df(), i as int) == MAP_ITEMTYPE_GROUP,
        ensures
            r.0 == scan_group(self.df(), s, i as int),
            r.0 is Ok ==> (r.1 matches Some(g) && group_ok(
                item_raw(self.df(), i as int),
                type_range(self.df(), MAP_ITEMTYPE_LAYER),
                g,
            )),
            (s.game is Some ==> s.at is Some) ==> (r.0 matches Ok(s2) ==> {
                &&& s2.game is Some ==> s2.at is Some
                &&& s.at is Some ==> s2.at == s.at
                &&& s.at is None ==> (s2.at is None || (s2.at matches Some((k, _, _)) && k == i))
            }),
    {
        proof {
            reveal(scan_group);
            let raw = item_raw(self.df(), i as int);
            let layers = type_range(self.df(), MAP_ITEMTYPE_LAYER);
            if s.game is Some ==> s.at is Some {
                lemma_scan_layers_at(self.df(), s, i, layers.start + raw[5], layers.start + raw[5] + raw[6]);
            }
        }
        let group = match self.group(i) {
            Ok(g) => g,
            Err(e) => {
                return (Err(e), None);
            },
        };
        let r = self.scan_group_layers(s, i, &group);
        (r, Some(group))
    }

    /// The game group and its game layers: exactly one game layer, at most
    /// one layer of each race and DDRace kind, all in one group and of one
    /// size.
    pub fn game_layers(&self) -> (r: Result<GameLayers, MapError>)
        requires
            self.df().wf(),
        ensures
            match scan_groups(
                self.df(),
                nothing_found(),
                type_range(self.df(), MAP_ITEMTYPE_GROUP).start as int,
                type_range(self.df(), MAP_ITEMTYPE_GROUP).end as int,
            ) {
                Err(e) => r == Err::<GameLayers, MapError>(e),
                Ok(s) => match s.game {
                    None => r == Err::<GameLayers, MapError>(MapError::NoGameLayer),
                    Some(g) => r matches Ok(gl) && s.at matches Some((k, w, h)) && {
                        &&& gl.width == w
                        &&& gl.height == h
                        &&& group_ok(item_raw(self.df(), k as int), type_range(self.df(), MAP_ITEMTYPE_LAYER), gl.group)
                        &&& gl.game_raw == g
                        &&& gl.teleport_raw == s.teleport
                        &&& gl.speedup_raw == s.speedup
                        &&& gl.front_raw == s.front
                        &&& gl.switch_raw == s.switch
                        &&& gl.tune_raw == s.tune
                    },
                },
            },
    {
        let ghost d = self.df();
        let ghost layers = type_range(d, MAP_ITEMTYPE_LAYER);
        let groups = self.group_indices();
        let mut s = GameFound {
            at: None,
            game: None,
            teleport: None,
            speedup: None,
            front: None,
            switch: None,
            tune: None,
        };
        let mut game_group: Option<Group> = None;
        let mut i = groups.start;
        while i < groups.end
            invariant
                d == self.df(),
                d.wf(),
                groups == type_range(d, MAP_ITEMTYPE_GROUP),
                layers == type_range(d, MAP_ITEMTYPE_LAYER),
                groups.start <= i <= groups.end <= d.spec_item_offsets().len(),
                scan_groups(d, nothing_found(), groups.start as int, i as int) == Ok::<GameFound, MapError>(s),
                s.game is Some ==> s.at is Some,
                s.at matches Some((k, _, _)) ==> game_group matches Some(g) && group_ok(item_raw(d, k as int), layers, g),
            decreases groups.end - i,
        {
            proof {
                self.reader.lemma_run_type(MAP_ITEMTYPE_GROUP, i as int);
            }
            let (r, group) = self.scan_group_exec(s, i);
            match r {
                Ok(s2) => {
                    if s.at.is_none() && s2.at.is_some() {
                        game_group = group;
                    }
                    s = s2;
                },
                Err(e) => {
                    proof {
                        lemma_scan_groups_err(d, nothing_found(), groups.start as int, i + 1, groups.end as int);
                    }
                    return Err(e);
                },
            }
            i = i + 1;
        }
        let game = match s.game {
            Some(g) => g,
            None => {
                return Err(MapError::NoGameLayer);
            },
        };
        let (width, height) = match s.at {
            Some((_, w, h)) => (w, h),
            None => {
                return Err(MapError::NoGameLayer);
            },
        };
        let group = match game_group {
            Some(g) => g,
            None => {
                return Err(MapError::NoGameLayer);
            },
        };
        Ok(GameLayers {
            group: group,
            width: width,
            height: height,
            game_raw: game,
            teleport_raw: s.teleport,
            speedup_raw: s.speedup,
            front_raw: s.front,
            switch_raw: s.switch,
            tune_raw: s.tune,
        })
    }
}

} // verus!
