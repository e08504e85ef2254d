use lib::map_format::bytes_to_string;
use lib::map_format::i32s_to_bytes;
use lib::map_format::EnvpointExt;
use lib::map_format::MapItem;
use lib::map_format::MapItemEnvpointV1;
use lib::map_format::MapItemEnvpointV2;
use lib::map_format::MapItemExt;
use lib::map_format::MapItemGroupV1;
use lib::map_format::MapItemGroupV3;
use lib::map_format::MapItemLayerV1;
use lib::map_format::MapItemLayerV1TilemapExtraRace;
use lib::map_format::MapItemLayerV1TilemapV2;
use lib::map_format::MapItemLayerV1TilemapV3;
use lib::map_format::Tile;
use lib::map_format::TILELAYERFLAG_TELEPORT;
use lib::map_format::TILELAYERFLAG_TUNE;
use lib::map_reader::check_version;
use lib::map_reader::image_name_from_raw;
use lib::map_reader::settings_from_raw;
use lib::map_reader::string_from_raw;
use lib::map_reader::tiles_from_raw;
use lib::map_reader::version_from_raw;
use lib::map_reader::ColorComponent;
use lib::map_reader::Group;
use lib::map_reader::GroupError;
use lib::map_reader::Image;
use lib::map_reader::ImageError;
use lib::map_reader::Info;
use lib::map_reader::Layer;
use lib::map_reader::LayerError;
use lib::map_reader::LayerTilemapError;
use lib::map_reader::LayerTilemapType;
use lib::map_reader::LayerType;
use lib::map_reader::MapError;

const GAME_NAME: [i32; 3] = [-941494811, -2139062144, -2139062144];

#[test]
fn item_layout() {
    assert_eq!(MapItemGroupV1::sum_len(), 7);
    assert_eq!(MapItemGroupV3::sum_len(), 15);
    assert_eq!(MapItemLayerV1TilemapV2::sum_len(), 12);
    assert_eq!(MapItemLayerV1TilemapV3::sum_len(), 15);
    assert_eq!(MapItemLayerV1::len(), 2);
    assert_eq!(MapItemLayerV1::version(), 1);
    assert!(MapItemLayerV1::ignore_version());
}

#[test]
fn item_from_slice_rest() {
    let data = [2, 10, 20, 30, 40, 0, 3, 99, 98];
    let (group, rest) = MapItemGroupV1::from_slice_rest(&data).unwrap();
    assert_eq!(group.offset_x, 10);
    assert_eq!(group.offset_y, 20);
    assert_eq!(group.parallax_x, 30);
    assert_eq!(group.parallax_y, 40);
    assert_eq!(group.start_layer, 0);
    assert_eq!(group.num_layers, 3);
    assert_eq!(rest, &[99, 98]);
}

#[test]
fn item_missing() {
    // Too short.
    assert!(MapItemGroupV1::from_slice(&[1, 2, 3]).is_none());
    // Version too old.
    assert!(MapItemGroupV3::from_slice(&[2; 15]).is_none());
    assert!(MapItemGroupV3::from_slice(&[3; 15]).is_some());
    // The layer item ignores its version.
    assert!(MapItemLayerV1::from_slice(&[-7, 2, 0]).is_some());
}

#[test]
fn names_stored_as_ints() {
    let mut bytes = [0xffu8; 12];
    i32s_to_bytes(&mut bytes, &GAME_NAME);
    assert_eq!(&bytes, b"Game\0\0\0\0\0\0\0\0");
    assert_eq!(bytes_to_string(&bytes), b"Game");
    assert_eq!(bytes_to_string(b"abc"), b"abc");
    assert_eq!(bytes_to_string(b""), b"");
    let mut four = [0u8; 4];
    i32s_to_bytes(&mut four, &[0]);
    assert_eq!(four, [0x80, 0x80, 0x80, 0x80]);
}

#[test]
fn name_get_ends_in_nul() {
    let mut data = vec![3; 12];
    data.extend_from_slice(&[0x01020304, 0x05060708, 0x090a0b0c]);
    let v3 = MapItemGroupV3::from_slice(&data).unwrap();
    let name = v3.name_get();
    assert_eq!(name[11], 0);
    assert_eq!(name[0], 0x81);
    assert_eq!(name[10], 0x8b);
}

#[test]
fn envpoints() {
    let data: Vec<i32> = (0..12).collect();
    assert_eq!(MapItemEnvpointV1::from_slice(&data, 1).map(|v| v.len()), Some(2));
    assert_eq!(MapItemEnvpointV1::from_slice(&data, 2).map(|v| v.len()), Some(2));
    assert!(MapItemEnvpointV1::from_slice(&data, 3).is_none());
    assert!(MapItemEnvpointV1::from_slice(&data[..7], 1).is_none());
    let long: Vec<i32> = (0..44).collect();
    assert_eq!(MapItemEnvpointV2::from_slice(&long, 3).map(|v| v.len()), Some(2));
    assert!(MapItemEnvpointV2::from_slice(&long, 2).is_none());
    assert_eq!(MapItemEnvpointV1::from_slice(&[], 1).map(|v| v.len()), Some(0));
}

#[test]
fn extra_race_offset() {
    assert_eq!(MapItemLayerV1TilemapExtraRace::offset(2, TILELAYERFLAG_TELEPORT), Some(12));
    assert_eq!(MapItemLayerV1TilemapExtraRace::offset(3, TILELAYERFLAG_TUNE), Some(19));
    assert_eq!(MapItemLayerV1TilemapExtraRace::offset(1, TILELAYERFLAG_TELEPORT), None);
    assert_eq!(MapItemLayerV1TilemapExtraRace::offset(3, 1), None);
    let data: Vec<i32> = (100..120).collect();
    assert_eq!(MapItemLayerV1TilemapExtraRace::from_slice(&data, 2, TILELAYERFLAG_TELEPORT).map(|e| e.data), Some(112));
    assert!(MapItemLayerV1TilemapExtraRace::from_slice(&data[..12], 2, TILELAYERFLAG_TELEPORT).is_none());
}

#[test]
fn group_from_raw() {
    let mut raw = vec![3, 1, 2, 100, 100, 1, 2, 1, 5, 6, 7, 8];
    raw.extend_from_slice(&GAME_NAME);
    let g = Group::from_raw(&raw, 10..20).unwrap();
    assert_eq!((g.offset_x, g.offset_y, g.parallax_x, g.parallax_y), (1, 2, 100, 100));
    assert_eq!(g.layer_indices, 11..13);
    let c = g.clipping.unwrap();
    assert_eq!((c.x, c.y, c.width, c.height), (5, 6, 7, 8));
    assert_eq!(&g.name, b"Game\0\0\0\0\0\0\0\0");

    // A version 1 group has neither clipping nor name.
    let g = Group::from_raw(&[1, 0, 0, 100, 100, 0, 1], 0..1).unwrap();
    assert!(g.clipping.is_none());
    assert_eq!(g.name, [0; 12]);

    assert!(matches!(Group::from_raw(&[1, 0, 0], 0..1), Err(GroupError::TooShort(3))));
    assert!(matches!(Group::from_raw(&[0, 0, 0, 0, 0, 0, 0], 0..1), Err(GroupError::InvalidVersion(0))));
    assert!(matches!(Group::from_raw(&[1, 0, 0, 0, 0, 2, 1], 0..1), Err(GroupError::InvalidStartLayerIndex(2, 1))));
    assert!(matches!(Group::from_raw(&[1, 0, 0, 0, 0, 0, 2], 0..1), Err(GroupError::InvalidNumLayers(0, 2))));
    assert!(matches!(Group::from_raw(&[3, 0, 0, 0, 0, 0, 0], 0..1), Err(GroupError::TooShort(7))));
}

#[test]
fn image_from_raw() {
    let img = Image::from_raw(&[1, 64, 32, 0, 2, 3], 0..4).unwrap();
    assert_eq!((img.width, img.height, img.name, img.data), (64, 32, 2, Some(3)));
    let ext = Image::from_raw(&[1, 64, 32, 1, 2, 99], 0..4).unwrap();
    assert_eq!(ext.data, None);
    assert!(matches!(Image::from_raw(&[1, 64, 32, 0, 2, 4], 0..4), Err(ImageError::InvalidDataIndex(4))));
    assert!(matches!(Image::from_raw(&[1, -1, 32, 1, 2, 0], 0..4), Err(ImageError::InvalidWidth(-1))));
    assert!(matches!(Image::from_raw(&[1, 1, 32, 1, 9, 0], 0..4), Err(ImageError::InvalidNameIndex(9))));
    assert!(matches!(Image::from_raw(&[1, 1], 0..4), Err(ImageError::TooShort(2))));
}

#[test]
fn info_from_raw() {
    let info = Info::from_raw(&[1, 0, -1, 2, -1], 0..3).unwrap();
    assert_eq!((info.author, info.version, info.credits, info.license, info.settings), (Some(0), None, Some(2), None, None));
    let info = Info::from_raw(&[1, -1, -1, -1, -1, 1], 0..3).unwrap();
    assert_eq!(info.settings, Some(1));
}

fn tilemap_raw(flags: i32, extra: &[i32]) -> Vec<i32> {
    // Layer item: version, type, flags.
    let mut raw = vec![0, 2, 0];
    // Tile layer version 3: size 4x3, flags, color, no envelope, image 0,
    // data 1, then the name.
    raw.extend_from_slice(&[3, 4, 3, flags, 255, 255, 255, 255, -1, 0, 0, 1]);
    raw.extend_from_slice(&GAME_NAME);
    raw.extend_from_slice(extra);
    raw
}

#[test]
fn layer_from_raw() {
    let layer = Layer::from_raw(&tilemap_raw(1, &[]), 0..5, 0..0, 0..1, 0..0).unwrap();
    assert!(!layer.detail);
    match layer.t {
        LayerType::Tilemap(t) => {
            assert_eq!((t.width, t.height), (4, 3));
            assert!(matches!(t.type_, LayerTilemapType::Game(1)));
            assert_eq!(t.type_.tiles(), Some(1));
            assert!(t.type_.to_normal().is_none());
            assert_eq!(&t.name, b"Game\0\0\0\0\0\0\0\0");
            let index = t.tiles(7);
            assert_eq!((index.data_index, index.width, index.height), (7, 4, 3));
        },
        _ => panic!("not a tile layer"),
    }
    let normal = Layer::from_raw(&tilemap_raw(0, &[]), 0..5, 0..0, 0..1, 0..0).unwrap();
    match normal.t {
        LayerType::Tilemap(t) => {
            let n = t.type_.to_normal().unwrap();
            assert_eq!((n.color.red, n.image, n.data), (255, Some(0), 1));
            assert!(n.color_env_and_offset.is_none());
        },
        _ => panic!("not a tile layer"),
    }
    // A teleport layer keeps its extra data index after the name.
    let tele = Layer::from_raw(&tilemap_raw(2, &[4]), 0..5, 0..0, 0..1, 0..0).unwrap();
    match tele.t {
        LayerType::Tilemap(t) => assert!(matches!(t.type_, LayerTilemapType::RaceTeleport(4, 1))),
        _ => panic!("not a tile layer"),
    }
    assert!(matches!(
        Layer::from_raw(&tilemap_raw(2, &[]), 0..5, 0..0, 0..1, 0..0),
        Err(LayerError::Tilemap(LayerTilemapError::TooShortRaceTeleport(15)))
    ));
    assert!(matches!(
        Layer::from_raw(&tilemap_raw(3, &[]), 0..5, 0..0, 0..1, 0..0),
        Err(LayerError::Tilemap(LayerTilemapError::InvalidFlags(3)))
    ));
    let mut bad_color = tilemap_raw(0, &[]);
    bad_color[8] = 256;
    assert!(matches!(
        Layer::from_raw(&bad_color, 0..5, 0..0, 0..1, 0..0),
        Err(LayerError::Tilemap(LayerTilemapError::InvalidColor(ColorComponent::Green, 256)))
    ));
    assert!(matches!(Layer::from_raw(&[0, 2], 0..5, 0..0, 0..1, 0..0), Err(LayerError::TooShort(2))));
    assert!(matches!(Layer::from_raw(&[0, 2, 2], 0..5, 0..0, 0..1, 0..0), Err(LayerError::InvalidFlags(2))));
    assert!(matches!(Layer::from_raw(&[0, 7, 1], 0..5, 0..0, 0..1, 0..0), Err(LayerError::InvalidType(7))));
    // A quad layer, detail.
    let quads = Layer::from_raw(&[0, 3, 1, 1, 5, 1, -1], 0..5, 0..0, 0..1, 0..0).unwrap();
    assert!(quads.detail);
    match quads.t {
        LayerType::Quads(q) => assert_eq!((q.num_quads, q.data, q.image), (5, 1, None)),
        _ => panic!("not a quad layer"),
    }
}

#[test]
fn raw_data_checks() {
    assert!(matches!(version_from_raw(None), Err(MapError::MissingVersion)));
    assert!(matches!(version_from_raw(Some(&[])), Err(MapError::EmptyVersion)));
    assert_eq!(version_from_raw(Some(&[1, 2])), Ok(1));
    assert_eq!(check_version(1), Ok(()));
    assert_eq!(check_version(2), Err(MapError::InvalidVersion(2)));

    assert_eq!(image_name_from_raw(b"grass_main\0".to_vec(), 3), Ok(b"grass_main".to_vec()));
    assert_eq!(image_name_from_raw(b"a/b\0".to_vec(), 3), Err(MapError::MalformedImageName(3)));
    assert_eq!(image_name_from_raw(b"ab".to_vec(), 4), Err(MapError::MalformedImageName(4)));

    assert_eq!(string_from_raw(b"hi\0".to_vec()), Ok(b"hi".to_vec()));
    assert_eq!(string_from_raw(b"hi".to_vec()), Err(MapError::InvalidStringMissingNullTermination));
    assert_eq!(string_from_raw(b"h\0i\0".to_vec()), Err(MapError::InvalidStringNullTermination));

    let tiles = tiles_from_raw(&[1, 0, 0, 0, 2, 8, 1, 0]).unwrap();
    assert_eq!(tiles, vec![
        Tile { index: 1, flags: 0, skip: 0, reserved: 0 },
        Tile { index: 2, flags: 8, skip: 1, reserved: 0 },
    ]);
    assert_eq!(tiles_from_raw(&[1, 2, 3]), Err(MapError::InvalidTilesLength(3)));
}

#[test]
fn settings_commands() {
    assert!(matches!(settings_from_raw(b"sv_gravity 1".to_vec()), Err(MapError::InvalidSettingsMissingNullTermination)));
    assert!(matches!(settings_from_raw(Vec::new()), Err(MapError::InvalidSettingsMissingNullTermination)));
    let settings = settings_from_raw(b"sv_a 1\0sv_b 2\0\0".to_vec()).unwrap();
    let mut iter = settings.iter();
    assert_eq!(iter.next(), Some(&b"sv_a 1"[..]));
    assert_eq!(iter.next(), Some(&b"sv_b 2"[..]));
    assert_eq!(iter.next(), Some(&b""[..]));
    assert_eq!(iter.next(), None);
    assert_eq!(iter.next(), None);
}
