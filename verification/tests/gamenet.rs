use lib::gamenet::enums::Chat;
use lib::gamenet::enums::Pickup;
use lib::gamenet::enums::Team;
use lib::gamenet::enums::Weapon;
use lib::gamenet::msg::game::ClSay;
use lib::gamenet::msg::game::Game;
use lib::gamenet::msg::game::SvChat;
use lib::gamenet::msg::game::SvExtraProjectile;
use lib::gamenet::msg::game::SvReadyToEnter;
use lib::gamenet::msg::game::CL_SAY;
use lib::gamenet::msg::game::SV_CHAT;
use lib::gamenet::msg::MessageId;
use lib::gamenet::snap_obj::obj_size;
use lib::gamenet::snap_obj::Flag;
use lib::gamenet::snap_obj::PlayerInput;
use lib::gamenet::snap_obj::Projectile;
use lib::gamenet::snap_obj::SnapObj;
use lib::gamenet::snap_obj::Tick;
use lib::gamenet::snap_obj::TypeId;
use lib::gamenet::snap_obj::FLAG;
use lib::gamenet::snap_obj::PLAYER_INPUT;
use lib::gamenet::Error;
use lib::packer::ExcessData;
use lib::packer::IntUnpacker;
use lib::packer::Packer;
use lib::packer::Unpacker;
use lib::packer::Warning;

#[test]
fn enum_values() {
    assert_eq!(Pickup::from_i32(3), Ok(Pickup::Shotgun));
    assert!(Pickup::from_i32(8).is_err());
    assert!(Pickup::from_i32(-1).is_err());
    assert_eq!(Pickup::Hammer.to_i32(), 7);
    assert_eq!(Team::from_i32(-1), Ok(Team::Spectators));
    assert_eq!(Team::Blue.to_i32(), 1);
    assert_eq!(Chat::from_i32(0), Ok(Chat::None_));
    for i in -2..50 {
        if let Ok(w) = Weapon::from_i32(i) {
            assert_eq!(w.to_i32(), i);
        }
    }
}

#[test]
fn snap_obj_sizes() {
    assert_eq!(obj_size(PLAYER_INPUT), Some(10));
    assert_eq!(obj_size(13), Some(58));
    assert_eq!(obj_size(0), None);
    assert_eq!(obj_size(25), None);
}

#[test]
fn player_input_decode_encode() {
    let data = [1, 10, -20, 1, 3, 0, 5, 6, 7, 8];
    let mut p = IntUnpacker::new(&data);
    let input = PlayerInput::decode_inner(&mut p).unwrap();
    assert!(p.as_slice().is_empty());
    assert_eq!(input.direction, 1);
    assert_eq!(input.target_y, -20);
    assert!(input.jump);
    assert!(!input.hook);
    assert_eq!(input.wanted_weapon, 6);
    assert_eq!(input.encode(), data.to_vec());
}

#[test]
fn player_input_errors() {
    let mut p = IntUnpacker::new(&[2, 0, 0, 0, 0, 0, 0, 0, 0, 0]);
    assert_eq!(PlayerInput::decode_inner(&mut p).unwrap_err(), Error::IntOutOfRange);
    assert_eq!(p.as_slice(), &[0, 0, 0, 0, 0, 0, 0, 0, 0]);
    let mut p = IntUnpacker::new(&[0, 0, 0]);
    assert_eq!(PlayerInput::decode_inner(&mut p).unwrap_err(), Error::UnexpectedEnd);
    assert!(p.as_slice().is_empty());
    let mut p = IntUnpacker::new(&[0, 0, 0, 2, 0, 0, 0, 0, 0, 0]);
    assert_eq!(PlayerInput::decode_inner(&mut p).unwrap_err(), Error::IntOutOfRange);
}

#[test]
fn snap_obj_excess_data() {
    let mut warnings: Vec<ExcessData> = vec![];
    let mut p = IntUnpacker::new(&[1, 2, 0, 99]);
    let flag = Flag::decode(&mut warnings, &mut p).unwrap();
    assert_eq!((flag.x, flag.y, flag.team), (1, 2, 0));
    assert_eq!(warnings, vec![ExcessData]);
    assert!(p.as_slice().is_empty());
}

#[test]
fn snap_obj_decode_obj() {
    let mut warnings: Vec<ExcessData> = vec![];
    let mut p = IntUnpacker::new(&[5, 6, 1]);
    match SnapObj::decode_obj(&mut warnings, TypeId::Ordinal(FLAG), &mut p).unwrap() {
        SnapObj::Flag(f) => {
            assert_eq!((f.x, f.y, f.team), (5, 6, 1));
        },
        _ => panic!("wrong object"),
    }
    let obj = SnapObj::Flag(Flag { x: 5, y: 6, team: 1 });
    assert_eq!(obj.encode(), vec![5, 6, 1]);
    assert_eq!(obj.obj_type_id(), TypeId::Ordinal(FLAG));
    let mut p = IntUnpacker::new(&[5, 6, 1]);
    assert_eq!(SnapObj::decode_obj(&mut warnings, TypeId::Ordinal(100), &mut p).unwrap_err(), Error::UnknownId);
    assert_eq!(p.as_slice(), &[5, 6, 1]);
}

#[test]
fn projectile_message_roundtrip() {
    let proj = Projectile {
        x: 100,
        y: -200,
        vel_x: 3,
        vel_y: 4,
        type_: Weapon::Grenade,
        start_tick: Tick(1234),
    };
    let bytes = proj.encode_msg(Packer::new(64)).unwrap();
    let mut warnings: Vec<Warning> = vec![];
    let mut p = Unpacker::new(&bytes);
    let back = Projectile::decode_msg(&mut warnings, &mut p).unwrap();
    assert_eq!(back, proj);
    assert!(warnings.is_empty());
}

#[test]
fn chat_message_roundtrip() {
    let msg = SvChat { mode: Chat::All, client_id: 3, target_id: -1, message: b"hello" };
    let bytes = msg.encode(Packer::new(64)).unwrap();
    assert_eq!(bytes, vec![1, 3, 0x40, b'h', b'e', b'l', b'l', b'o', 0]);
    let mut warnings = vec![];
    let mut p = Unpacker::new(&bytes);
    let back = SvChat::decode(&mut warnings, &mut p).unwrap();
    assert_eq!(back.mode, Chat::All);
    assert_eq!((back.client_id, back.target_id), (3, -1));
    assert_eq!(back.message, b"hello");
    assert!(warnings.is_empty());
}

#[test]
fn chat_message_errors() {
    let mut warnings = vec![];
    let mut p = Unpacker::new(b"\x04\x03hi\x00");
    assert_eq!(ClSay::decode(&mut warnings, &mut p).unwrap_err(), Error::IntOutOfRange);
    let mut p = Unpacker::new(b"\x01\x03\x40he\x01llo\x00");
    assert_eq!(SvChat::decode(&mut warnings, &mut p).unwrap_err(), Error::ControlCharacters);
    let mut p = Unpacker::new(b"\x01\x03");
    assert_eq!(SvChat::decode(&mut warnings, &mut p).unwrap_err(), Error::UnexpectedEnd);
    let msg = SvChat { mode: Chat::All, client_id: 3, target_id: -1, message: b"hello" };
    assert!(msg.encode(Packer::new(5)).is_err());
}

#[test]
fn game_decode_msg() {
    let mut warnings = vec![];
    let mut p = Unpacker::new(b"\x01\x05hi\x00\x00");
    match Game::decode_msg(&mut warnings, MessageId::Ordinal(CL_SAY), &mut p).unwrap() {
        Game::ClSay(m) => {
            assert_eq!(m.mode, Chat::All);
            assert_eq!(m.target, 5);
            assert_eq!(m.message, b"hi");
        },
        _ => panic!("wrong message"),
    }
    assert_eq!(warnings, vec![Warning::ExcessData]);
    let mut p = Unpacker::new(b"");
    assert_eq!(Game::decode_msg(&mut warnings, MessageId::Ordinal(1000), &mut p).unwrap_err(), Error::UnknownId);
    let g = Game::SvChat(SvChat { mode: Chat::Team, client_id: 0, target_id: 2, message: b"x" });
    assert_eq!(g.msg_id(), MessageId::Ordinal(SV_CHAT));
    assert_eq!(g.encode_msg(Packer::new(16)).unwrap(), vec![2, 0, 2, b'x', 0]);
}

#[test]
fn extra_projectile_and_empty_messages() {
    let m = SvExtraProjectile {
        projectile: Projectile { x: 1, y: 2, vel_x: 3, vel_y: 4, type_: Weapon::Ninja, start_tick: Tick(5) },
    };
    let bytes = m.encode(Packer::new(64)).unwrap();
    assert_eq!(bytes, vec![1, 2, 3, 4, 5, 5]);
    let mut warnings = vec![];
    let mut p = Unpacker::new(&bytes);
    assert_eq!(SvExtraProjectile::decode(&mut warnings, &mut p).unwrap().projectile, m.projectile);
    let mut p = Unpacker::new(b"\x01");
    assert_eq!(SvReadyToEnter::decode(&mut warnings, &mut p).unwrap(), SvReadyToEnter);
    assert_eq!(warnings, vec![Warning::ExcessData]);
}
