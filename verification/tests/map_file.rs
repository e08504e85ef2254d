use lib::datafile_raw::DatafileReader;
use lib::map_file::Reader;
use lib::map_reader::MapError;

fn le(v: i32) -> [u8; 4] {
    v.to_le_bytes()
}

/// A version 4 datafile holding `items` (type id, id, data), which come
/// sorted by type id, and one datum of four bytes.
fn datafile(items: &[(i32, i32, Vec<i32>)]) -> Vec<u8> {
    let mut types: Vec<(i32, i32, i32)> = Vec::new();
    for (k, (t, _, _)) in items.iter().enumerate() {
        match types.last_mut() {
            Some(last) if last.0 == *t => last.2 += 1,
            _ => types.push((*t, k as i32, 1)),
        }
    }
    let mut offsets = Vec::new();
    let mut raw = Vec::new();
    for (t, id, data) in items {
        offsets.push(raw.len() as i32 * 4);
        raw.push((t << 16) | id);
        raw.push(data.len() as i32 * 4);
        raw.extend_from_slice(data);
    }
    let mut b = Vec::new();
    b.extend_from_slice(b"DATA");
    b.extend_from_slice(&le(4));
    for v in [0, 0, types.len() as i32, items.len() as i32, 1, raw.len() as i32 * 4, 4] {
        b.extend_from_slice(&le(v));
    }
    for (t, start, num) in &types {
        for v in [*t, *start, *num] {
            b.extend_from_slice(&le(v));
        }
    }
    for o in &offsets {
        b.extend_from_slice(&le(*o));
    }
    b.extend_from_slice(&le(0));
    b.extend_from_slice(&le(4));
    for v in &raw {
        b.extend_from_slice(&le(*v));
    }
    b.extend_from_slice(b"abcd");
    b
}

fn version_item() -> (i32, i32, Vec<i32>) {
    (0, 0, vec![1])
}

/// A group holding `num` layers from `start` on.
fn group_item(id: i32, start: i32, num: i32) -> (i32, i32, Vec<i32>) {
    (4, id, vec![3, 0, 0, 100, 100, start, num, 0, 0, 0, 0, 0, -1, -1, -1])
}

/// A tile layer of the given flags and size, its tiles in datum 0.
fn tile_layer(id: i32, flags: i32, width: i32, height: i32) -> (i32, i32, Vec<i32>) {
    (5, id, vec![0, 2, 0, 3, width, height, flags, 255, 255, 255, 255, -1, 0, -1, 0, -1, -1, -1, 0, 0, 0, 0, 0])
}

fn reader(items: &[(i32, i32, Vec<i32>)]) -> Reader {
    let bytes = datafile(items);
    Reader::from_datafile(DatafileReader::read(&bytes).unwrap())
}

#[test]
fn game_layers_found() {
    let r = reader(&[
        version_item(),
        group_item(0, 0, 1),
        group_item(1, 1, 2),
        tile_layer(0, 0, 10, 20),
        tile_layer(1, 0, 30, 40),
        tile_layer(2, 1, 50, 60),
    ]);
    assert_eq!(r.version(), Ok(1));
    assert_eq!(r.check_version(), Ok(()));
    let g = r.game_layers().ok().unwrap();
    assert_eq!((g.width, g.height), (50, 60));
    assert_eq!(g.game_raw, 0);
    assert_eq!(g.teleport_raw, None);
    assert_eq!(g.group.layer_indices, 4..6);
    assert_eq!(g.group.parallax_x, 100);
}

#[test]
fn game_layers_refused() {
    let none = reader(&[version_item(), group_item(0, 0, 1), tile_layer(0, 0, 10, 20)]);
    assert_eq!(none.game_layers().err(), Some(MapError::NoGameLayer));
    let two = reader(&[
        version_item(),
        group_item(0, 0, 2),
        tile_layer(0, 1, 10, 20),
        tile_layer(1, 1, 10, 20),
    ]);
    assert_eq!(two.game_layers().err(), Some(MapError::TooManyGameLayers));
    let groups = reader(&[
        version_item(),
        group_item(0, 0, 1),
        group_item(1, 1, 1),
        tile_layer(0, 1, 10, 20),
        tile_layer(1, 8, 10, 20),
    ]);
    assert_eq!(groups.game_layers().err(), Some(MapError::TooManyGameGroups));
    let sizes = reader(&[
        version_item(),
        group_item(0, 0, 2),
        tile_layer(0, 1, 10, 20),
        tile_layer(1, 8, 11, 20),
    ]);
    assert_eq!(sizes.game_layers().err(), Some(MapError::InconsistentGameLayerDimensions));
    let front = reader(&[
        version_item(),
        group_item(0, 0, 2),
        tile_layer(0, 8, 10, 20),
        tile_layer(1, 1, 10, 20),
    ]);
    let g = front.game_layers().ok().unwrap();
    assert_eq!(g.front_raw, Some(0));
    assert_eq!(g.game_raw, 0);
    let no_groups = reader(&[version_item()]);
    assert_eq!(no_groups.game_layers().err(), Some(MapError::NoGameLayer));
}
