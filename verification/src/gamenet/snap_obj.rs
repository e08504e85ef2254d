//! The objects of a Teeworlds 0.7 snapshot. Each is a fixed number of
//! integers: `ints` gives them, `bounds` the range each must lie in.
use vstd::prelude::*;
use crate::gamenet::Error;
use crate::gamenet::decode_error;
use crate::gamenet::decoded;
use crate::gamenet::fits;
use crate::gamenet::lemma_decode_fits;
use crate::gamenet::lemma_fits_split;
use crate::gamenet::read_int_fields;
use crate::gamenet::enums;
use crate::buffer::CapacityError;
use crate::gamenet::msg::Field;
use crate::gamenet::msg::Value;
use crate::gamenet::msg::decoded_msg;
use crate::gamenet::msg::encoding;
use crate::gamenet::msg::int_fields;
use crate::gamenet::msg::int_items;
use crate::gamenet::msg::items_of;
use crate::gamenet::msg::read_fields;
use crate::gamenet::msg::write_values;
use crate::packer::ExcessData;
use crate::packer::IntUnpacker;
use crate::packer::Packer;
use crate::packer::Unpacker;
use crate::packer::Warning;

verus! {

pub const PLAYERFLAG_ADMIN: i32 = 1 << 0;
pub const PLAYERFLAG_CHATTING: i32 = 1 << 1;
pub const PLAYERFLAG_SCOREBOARD: i32 = 1 << 2;
pub const PLAYERFLAG_READY: i32 = 1 << 3;
pub const PLAYERFLAG_DEAD: i32 = 1 << 4;
pub const PLAYERFLAG_WATCHING: i32 = 1 << 5;
pub const PLAYERFLAG_BOT: i32 = 1 << 6;
pub const GAMEFLAG_TEAMS: i32 = 1 << 0;
pub const GAMEFLAG_FLAGS: i32 = 1 << 1;
pub const GAMEFLAG_SURVIVAL: i32 = 1 << 2;
pub const GAMEFLAG_RACE: i32 = 1 << 3;
pub const GAMESTATEFLAG_WARMUP: i32 = 1 << 0;
pub const GAMESTATEFLAG_SUDDENDEATH: i32 = 1 << 1;
pub const GAMESTATEFLAG_ROUNDOVER: i32 = 1 << 2;
pub const GAMESTATEFLAG_GAMEOVER: i32 = 1 << 3;
pub const GAMESTATEFLAG_PAUSED: i32 = 1 << 4;
pub const GAMESTATEFLAG_STARTCOUNTDOWN: i32 = 1 << 5;
pub const COREEVENTFLAG_GROUND_JUMP: i32 = 1 << 0;
pub const COREEVENTFLAG_AIR_JUMP: i32 = 1 << 1;
pub const COREEVENTFLAG_HOOK_ATTACH_PLAYER: i32 = 1 << 2;
pub const COREEVENTFLAG_HOOK_ATTACH_GROUND: i32 = 1 << 3;
pub const COREEVENTFLAG_HOOK_HIT_NOHOOK: i32 = 1 << 4;
pub const RACEFLAG_HIDE_KILLMSG: i32 = 1 << 0;
pub const RACEFLAG_FINISHMSG_AS_CHAT: i32 = 1 << 1;
pub const RACEFLAG_KEEP_WANTED_WEAPON: i32 = 1 << 2;

pub const PLAYER_INPUT: u16 = 1;
pub const PROJECTILE: u16 = 2;
pub const LASER: u16 = 3;
pub const PICKUP: u16 = 4;
pub const FLAG: u16 = 5;
pub const GAME_DATA: u16 = 6;
pub const GAME_DATA_TEAM: u16 = 7;
pub const GAME_DATA_FLAG: u16 = 8;
pub const CHARACTER_CORE: u16 = 9;
pub const CHARACTER: u16 = 10;
pub const PLAYER_INFO: u16 = 11;
pub const SPECTATOR_INFO: u16 = 12;
pub const DE_CLIENT_INFO: u16 = 13;
pub const DE_GAME_INFO: u16 = 14;
pub const DE_TUNE_PARAMS: u16 = 15;
pub const COMMON: u16 = 16;
pub const EXPLOSION: u16 = 17;
pub const SPAWN: u16 = 18;
pub const HAMMER_HIT: u16 = 19;
pub const DEATH: u16 = 20;
pub const SOUND_WORLD: u16 = 21;
pub const DAMAGE: u16 = 22;
pub const PLAYER_INFO_RACE: u16 = 23;
pub const GAME_DATA_RACE: u16 = 24;

/// A game tick.
#[derive(Clone, Copy, Debug, PartialEq, Eq, Structural, PartialOrd, Ord, Hash)]
pub struct Tick(pub i32);

/// The type of a snapshot object: a number, or a UUID for extended types.
#[derive(Clone, Copy, Debug, PartialEq, Eq)]
pub enum TypeId {
    Ordinal(u16),
    Uuid([u8; 16]),
}

/// A boolean field as an integer.
pub open spec fn bool_int(b: bool) -> i32 {
    if b {
        1
    } else {
        0
    }
}

/// The integers of `x` from `start` on.
fn ints_from<'b>(x: &'b [i32], start: usize) -> (r: &'b [i32])
    requires
        start <= x@.len(),
    ensures
        r@ == x@.subrange(start as int, x@.len() as int),
{
    &x[start..x.len()]
}

/// The first `n` integers of `x`.
fn ints_prefix<'b>(x: &'b [i32], n: usize) -> (r: &'b [i32])
    requires
        n <= x@.len(),
    ensures
        r@ == x@.subrange(0, n as int),
{
    &x[0..n]
}

/// Appends the integers `a` to `v`.
fn extend_ints(v: &mut Vec<i32>, a: &[i32])
    ensures
        final(v)@ == old(v)@ + a@,
{
    let mut i: usize = 0;
    while i < a.len()
        invariant
            i <= a@.len(),
            v@ == old(v)@ + a@.subrange(0, i as int),
        decreases a.len() - i,
    {
        v.push(a[i]);
        i = i + 1;
        proof {
            assert(v@ =~= old(v)@ + a@.subrange(0, i as int));
        }
    }
    proof {
        assert(a@.subrange(0, a@.len() as int) =~= a@);
    }
}

/// Reads a snapshot object's integers and warns about any left over.
pub open spec fn decoded_all(
    bounds: Seq<(i32, i32)>,
    before: Seq<i32>,
    after: Seq<i32>,
    r: Result<Seq<i32>, Error>,
    warns_before: Seq<ExcessData>,
    warns_after: Seq<ExcessData>,
) -> bool {
    match decode_error(bounds, before) {
        Some(_) => decoded(bounds, before, after, r) && warns_after == warns_before,
        None => {
            &&& r == Ok::<Seq<i32>, Error>(before.subrange(0, bounds.len() as int))
            &&& after == Seq::<i32>::empty()
            &&& warns_after == warns_before + (if before.len() > bounds.len() {
                seq![ExcessData]
            } else {
                Seq::empty()
            })
        },
    }
}

#[derive(Clone, Copy, Debug)]
pub enum SnapObj {
    PlayerInput(PlayerInput),
    Projectile(Projectile),
    Laser(Laser),
    Pickup(Pickup),
    Flag(Flag),
    GameData(GameData),
    GameDataTeam(GameDataTeam),
    GameDataFlag(GameDataFlag),
    CharacterCore(CharacterCore),
    Character(Character),
    PlayerInfo(PlayerInfo),
    SpectatorInfo(SpectatorInfo),
    DeClientInfo(DeClientInfo),
    DeGameInfo(DeGameInfo),
    DeTuneParams(DeTuneParams),
    Common(Common),
    Explosion(Explosion),
    Spawn(Spawn),
    HammerHit(HammerHit),
    Death(Death),
    SoundWorld(SoundWorld),
    Damage(Damage),
    PlayerInfoRace(PlayerInfoRace),
    GameDataRace(GameDataRace),
}

#[derive(Clone, Copy, Debug, PartialEq, Eq, Structural, Default)]
pub struct PlayerInput {
    pub direction: i32,
    pub target_x: i32,
    pub target_y: i32,
    pub jump: bool,
    pub fire: i32,
    pub hook: bool,
    pub player_flags: i32,
    pub wanted_weapon: i32,
    pub next_weapon: i32,
    pub prev_weapon: i32,
}

#[derive(Clone, Copy, Debug, PartialEq, Eq, Structural)]
pub struct Projectile {
    pub x: i32,
    pub y: i32,
    pub vel_x: i32,
    pub vel_y: i32,
    pub type_: enums::Weapon,
    pub start_tick: Tick,
}

#[derive(Clone, Copy, Debug, PartialEq, Eq, Structural)]
pub struct Laser {
    pub x: i32,
    pub y: i32,
    pub from_x: i32,
    pub from_y: i32,
    pub start_tick: Tick,
}

#[derive(Clone, Copy, Debug, PartialEq, Eq, Structural)]
pub struct Pickup {
    pub x: i32,
    pub y: i32,
    pub type_: enums::Pickup,
}

#[derive(Clone, Copy, Debug, PartialEq, Eq, Structural)]
pub struct Flag {
    pub x: i32,
    pub y: i32,
    pub team: i32,
}

#[derive(Clone, Copy, Debug, PartialEq, Eq, Structural)]
pub struct GameData {
    pub game_start_tick: Tick,
    pub game_state_flags: i32,
    pub game_state_end_tick: Tick,
}

#[derive(Clone, Copy, Debug, PartialEq, Eq, Structural)]
pub struct GameDataTeam {
    pub teamscore_red: i32,
    pub teamscore_blue: i32,
}

#[derive(Clone, Copy, Debug, PartialEq, Eq, Structural)]
pub struct GameDataFlag {
    pub flag_carrier_red: i32,
    pub flag_carrier_blue: i32,
    pub flag_drop_tick_red: Tick,
    pub flag_drop_tick_blue: Tick,
}

#[derive(Clone, Copy, Debug, PartialEq, Eq, Structural)]
pub struct CharacterCore {
    pub tick: Tick,
    pub x: i32,
    pub y: i32,
    pub vel_x: i32,
    pub vel_y: i32,
    pub angle: i32,
    pub direction: i32,
    pub jumped: i32,
    pub hooked_player: i32,
    pub hook_state: i32,
    pub hook_tick: Tick,
    pub hook_x: i32,
    pub hook_y: i32,
    pub hook_dx: i32,
    pub hook_dy: i32,
}

#[derive(Clone, Copy, Debug, PartialEq, Eq, Structural)]
pub struct Character {
    pub character_core: CharacterCore,
    pub health: i32,
    pub armor: i32,
    pub ammo_count: i32,
    pub weapon: enums::Weapon,
    pub emote: enums::Emote,
    pub attack_tick: Tick,
    pub triggered_events: i32,
}

#[derive(Clone, Copy, Debug, PartialEq, Eq, Structural)]
pub struct PlayerInfo {
    pub player_flags: i32,
    pub score: i32,
    pub latency: i32,
}

#[derive(Clone, Copy, Debug, PartialEq, Eq, Structural)]
pub struct SpectatorInfo {
    pub spec_mode: enums::Spec,
    pub spectator_id: i32,
    pub x: i32,
    pub y: i32,
}

#[derive(Clone, Copy, Debug, PartialEq, Eq)]
pub struct DeClientInfo {
    pub local: bool,
    pub team: enums::Team,
    pub name: [i32; 4],
    pub clan: [i32; 3],
    pub country: i32,
    pub skin_part_names: [[i32; 6]; 6],
    pub use_custom_colors: [bool; 6],
    pub skin_part_colors: [i32; 6],
}

#[derive(Clone, Copy, Debug, PartialEq, Eq, Structural)]
pub struct DeGameInfo {
    pub game_flags: i32,
    pub score_limit: i32,
    pub time_limit: i32,
    pub match_num: i32,
    pub match_current: i32,
}

#[derive(Clone, Copy, Debug, PartialEq, Eq)]
pub struct DeTuneParams {
    pub tune_params: [i32; 32],
}

#[derive(Clone, Copy, Debug, PartialEq, Eq, Structural)]
pub struct Common {
    pub x: i32,
    pub y: i32,
}

#[derive(Clone, Copy, Debug, PartialEq, Eq, Structural)]
pub struct Explosion {
    pub common: Common,
}

#[derive(Clone, Copy, Debug, PartialEq, Eq, Structural)]
pub struct Spawn {
    pub common: Common,
}

#[derive(Clone, Copy, Debug, PartialEq, Eq, Structural)]
pub struct HammerHit {
    pub common: Common,
}

#[derive(Clone, Copy, Debug, PartialEq, Eq, Structural)]
pub struct Death {
    pub common: Common,
    pub client_id: i32,
}

#[derive(Clone, Copy, Debug, PartialEq, Eq, Structural)]
pub struct SoundWorld {
    pub common: Common,
    pub sound_id: enums::Sound,
}

#[derive(Clone, Copy, Debug, PartialEq, Eq, Structural)]
pub struct Damage {
    pub common: Common,
    pub client_id: i32,
    pub angle: i32,
    pub health_amount: i32,
    pub armor_amount: i32,
    pub self_: bool,
}

#[derive(Clone, Copy, Debug, PartialEq, Eq, Structural)]
pub struct PlayerInfoRace {
    pub race_start_tick: Tick,
}

#[derive(Clone, Copy, Debug, PartialEq, Eq, Structural)]
pub struct GameDataRace {
    pub best_time: i32,
    pub precision: i32,
    pub race_flags: i32,
}

impl PlayerInput {
    /// The integers the object is sent as.
    pub open spec fn ints(self) -> Seq<i32> {
        seq![self.direction, self.target_x, self.target_y, bool_int(self.jump), self.fire, bool_int(self.hook), self.player_flags, self.wanted_weapon, self.next_weapon, self.prev_weapon]
    }

    /// The bounds of each of the integers.
    pub open spec fn bounds() -> Seq<(i32, i32)> {
        seq![(-1i32, 1i32), (i32::MIN, i32::MAX), (i32::MIN, i32::MAX), (0i32, 1i32), (i32::MIN, i32::MAX), (0i32, 1i32), (i32::MIN, i32::MAX), (0i32, 6i32), (i32::MIN, i32::MAX), (i32::MIN, i32::MAX)]
    }

    /// The fields lie in their ranges.
    pub open spec fn valid(self) -> bool {
        &&& -1 <= self.direction && self.direction <= 1
        &&& 0 <= self.wanted_weapon && self.wanted_weapon <= 6
    }

    pub(crate) fn from_ints(v: &[i32]) -> (r: PlayerInput)
        requires
            fits(PlayerInput::bounds(), v@),
        ensures
            r.ints() == v@,
    {
        proof {
            assert forall|i: int| 0 <= i < 10 implies crate::gamenet::in_bounds(PlayerInput::bounds()[i], v@[i]) by {
                assert(crate::gamenet::in_bounds(PlayerInput::bounds()[i], v@[i]));
            }
        }
        let r = PlayerInput {
            direction: v[0],
            target_x: v[1],
            target_y: v[2],
            jump: v[3] != 0,
            fire: v[4],
            hook: v[5] != 0,
            player_flags: v[6],
            wanted_weapon: v[7],
            next_weapon: v[8],
            prev_weapon: v[9],
        };
        proof {
            assert(r.ints() =~= v@);
        }
        r
    }

    /// Reads the object's integers from `p`.
    pub fn decode_inner(p: &mut IntUnpacker) -> (r: Result<PlayerInput, Error>)
        ensures
            decoded(
                PlayerInput::bounds(),
                old(p)@,
                final(p)@,
                match r {
                    Ok(x) => Ok(x.ints()),
                    Err(e) => Err(e),
                },
            ),
    {
        let bounds: [(i32, i32); 10] = [(-1i32, 1i32), (i32::MIN, i32::MAX), (i32::MIN, i32::MAX), (0i32, 1i32), (i32::MIN, i32::MAX), (0i32, 1i32), (i32::MIN, i32::MAX), (0i32, 6i32), (i32::MIN, i32::MAX), (i32::MIN, i32::MAX)];
        proof {
            assert(bounds@ =~= PlayerInput::bounds());
        }
        match read_int_fields(p, &bounds) {
            Ok(v) => Ok(PlayerInput::from_ints(v.as_slice())),
            Err(e) => Err(e),
        }
    }

    /// Reads the object from `p`, warning about integers left over.
    pub fn decode(warns: &mut Vec<ExcessData>, p: &mut IntUnpacker) -> (r: Result<PlayerInput, Error>)
        ensures
            decoded_all(
                PlayerInput::bounds(),
                old(p)@,
                final(p)@,
                match r {
                    Ok(x) => Ok(x.ints()),
                    Err(e) => Err(e),
                },
                old(warns)@,
                final(warns)@,
            ),
    {
        let result = match PlayerInput::decode_inner(p) {
            Ok(x) => x,
            Err(e) => return Err(e),
        };
        p.finish(warns);
        Ok(result)
    }

    /// The integers the object is sent as.
    pub fn encode(&self) -> (r: Vec<i32>)
        requires
            self.valid(),
        ensures
            r@ == self.ints(),
    {
        let mut v: Vec<i32> = Vec::new();
        v.push(self.direction);
        v.push(self.target_x);
        v.push(self.target_y);
        v.push(if self.jump { 1 } else { 0 });
        v.push(self.fire);
        v.push(if self.hook { 1 } else { 0 });
        v.push(self.player_flags);
        v.push(self.wanted_weapon);
        v.push(self.next_weapon);
        v.push(self.prev_weapon);
        proof {
            assert(v@ =~= self.ints());
        }
        v
    }
}

impl PlayerInput {
    /// Reads the object as a message from `p`; a message read in full
    /// warns about bytes left over, which it consumes.
    pub fn decode_msg(warns: &mut Vec<Warning>, p: &mut Unpacker) -> (r: Result<PlayerInput, Error>)
        ensures
            decoded_msg(
                int_fields(PlayerInput::bounds()),
                old(p)@,
                final(p)@,
                old(warns)@,
                final(warns)@,
                match r {
                    Ok(x) => Ok(int_items(x.ints())),
                    Err(e) => Err(e),
                },
            ),
    {
        let fields: [Field; 10] = [Field::Int(-1i32, 1i32), Field::Int(i32::MIN, i32::MAX), Field::Int(i32::MIN, i32::MAX), Field::Int(0i32, 1i32), Field::Int(i32::MIN, i32::MAX), Field::Int(0i32, 1i32), Field::Int(i32::MIN, i32::MAX), Field::Int(0i32, 6i32), Field::Int(i32::MIN, i32::MAX), Field::Int(i32::MIN, i32::MAX)];
        proof {
            assert(fields@ =~= int_fields(PlayerInput::bounds()));
        }
        let v = match read_fields(warns, p, &fields) {
            Ok(v) => v,
            Err(e) => return Err(e),
        };
        proof {
            assert forall|i: int| 0 <= i < v@.len() implies (#[trigger] v@[i]) is Int by {
                crate::gamenet::msg::lemma_value_at(int_fields(PlayerInput::bounds()), v@, i);
            }
        }
        let ints = crate::gamenet::msg::ints_of(v.as_slice());
        proof {
            crate::gamenet::msg::lemma_int_items(PlayerInput::bounds(), items_of(v@), ints@);
        }
        let result = PlayerInput::from_ints(ints.as_slice());
        p.finish(warns);
        Ok(result)
    }

    /// Writes the object as a message into `p`; fails if it does not fit.
    pub fn encode_msg(&self, p: Packer) -> (r: Result<Vec<u8>, CapacityError>)
        requires
            self.valid(),
        ensures
            (r is Ok) <==> p@.len() + encoding(int_items(self.ints())).len() <= p.capacity(),
            r matches Ok(b) ==> b@ == p@ + encoding(int_items(self.ints())),
    {
        let ints = self.encode();
        let mut values: Vec<Value> = Vec::new();
        crate::gamenet::msg::push_ints(&mut values, ints.as_slice());
        proof {
            assert(items_of(values@) =~= int_items(self.ints()));
            lemma_player_input_roundtrip(*self, *self, Seq::empty());
            crate::gamenet::msg::lemma_int_fits(PlayerInput::bounds(), self.ints());
        }
        let mut p = p;
        match write_values(&mut p, values.as_slice()) {
            Ok(()) => Ok(p.written()),
            Err(e) => Err(e),
        }
    }
}

/// Decoding the integers of a valid `PlayerInput`, followed by anything, gives it
/// back: they are in bounds, and no other `PlayerInput` has the same integers.
pub proof fn lemma_player_input_roundtrip(x: PlayerInput, y: PlayerInput, rest: Seq<i32>)
    requires
        x.valid(),
    ensures
        fits(PlayerInput::bounds(), x.ints()),
        decode_error(PlayerInput::bounds(), x.ints() + rest) is None,
        (x.ints() + rest).subrange(0, 10) == x.ints(),
        y.ints() == x.ints() ==> y == x,
{
    assert forall|i: int| 0 <= i < 10 implies #[trigger] crate::gamenet::in_bounds(PlayerInput::bounds()[i], x.ints()[i]) by {
    }
    lemma_decode_fits(PlayerInput::bounds(), x.ints(), rest);
    if y.ints() == x.ints() {
        assert forall|i: int| 0 <= i < 10 implies y.ints()[i] == x.ints()[i] by {}
        assert(y.ints()[0] == x.ints()[0]);
        assert(y.ints()[1] == x.ints()[1]);
        assert(y.ints()[2] == x.ints()[2]);
        assert(y.ints()[3] == x.ints()[3]);
        assert(y.ints()[4] == x.ints()[4]);
        assert(y.ints()[5] == x.ints()[5]);
        assert(y.ints()[6] == x.ints()[6]);
        assert(y.ints()[7] == x.ints()[7]);
        assert(y.ints()[8] == x.ints()[8]);
        assert(y.ints()[9] == x.ints()[9]);
    }
}

impl Projectile {
    /// The integers the object is sent as.
    pub open spec fn ints(self) -> Seq<i32> {
        seq![self.x, self.y, self.vel_x, self.vel_y, self.type_.value(), self.start_tick.0]
    }

    /// The bounds of each of the integers.
    pub open spec fn bounds() -> Seq<(i32, i32)> {
        seq![(i32::MIN, i32::MAX), (i32::MIN, i32::MAX), (i32::MIN, i32::MAX), (i32::MIN, i32::MAX), (0i32, 5i32), (i32::MIN, i32::MAX)]
    }

    /// The fields lie in their ranges.
    pub open spec fn valid(self) -> bool {
        true
    }

    pub(crate) fn from_ints(v: &[i32]) -> (r: Projectile)
        requires
            fits(Projectile::bounds(), v@),
        ensures
            r.ints() == v@,
    {
        proof {
            assert forall|i: int| 0 <= i < 6 implies crate::gamenet::in_bounds(Projectile::bounds()[i], v@[i]) by {
                assert(crate::gamenet::in_bounds(Projectile::bounds()[i], v@[i]));
            }
        }
        proof {
            assert(crate::gamenet::in_bounds(Projectile::bounds()[4], v@[4]));
        }
        let type_ = match enums::Weapon::from_i32(v[4]) {
            Ok(e) => e,
            Err(_) => {
                proof {
                    assert(false);
                }
                enums::Weapon::Hammer
            },
        };
        proof {
            enums::lemma_weapon_values(type_, v[4]);
        }
        let r = Projectile {
            x: v[0],
            y: v[1],
            vel_x: v[2],
            vel_y: v[3],
            type_,
            start_tick: Tick(v[5]),
        };
        proof {
            assert(r.ints() =~= v@);
        }
        r
    }

    /// Reads the object's integers from `p`.
    pub fn decode_inner(p: &mut IntUnpacker) -> (r: Result<Projectile, Error>)
        ensures
            decoded(
                Projectile::bounds(),
                old(p)@,
                final(p)@,
                match r {
                    Ok(x) => Ok(x.ints()),
                    Err(e) => Err(e),
                },
            ),
    {
        let bounds: [(i32, i32); 6] = [(i32::MIN, i32::MAX), (i32::MIN, i32::MAX), (i32::MIN, i32::MAX), (i32::MIN, i32::MAX), (0i32, 5i32), (i32::MIN, i32::MAX)];
        proof {
            assert(bounds@ =~= Projectile::bounds());
        }
        match read_int_fields(p, &bounds) {
            Ok(v) => Ok(Projectile::from_ints(v.as_slice())),
            Err(e) => Err(e),
        }
    }

    /// Reads the object from `p`, warning about integers left over.
    pub fn decode(warns: &mut Vec<ExcessData>, p: &mut IntUnpacker) -> (r: Result<Projectile, Error>)
        ensures
            decoded_all(
                Projectile::bounds(),
                old(p)@,
                final(p)@,
                match r {
                    Ok(x) => Ok(x.ints()),
                    Err(e) => Err(e),
                },
                old(warns)@,
                final(warns)@,
            ),
    {
        let result = match Projectile::decode_inner(p) {
            Ok(x) => x,
            Err(e) => return Err(e),
        };
        p.finish(warns);
        Ok(result)
    }

    /// The integers the object is sent as.
    pub fn encode(&self) -> (r: Vec<i32>)
        ensures
            r@ == self.ints(),
    {
        let mut v: Vec<i32> = Vec::new();
        v.push(self.x);
        v.push(self.y);
        v.push(self.vel_x);
        v.push(self.vel_y);
        v.push(self.type_.to_i32());
        v.push(self.start_tick.0);
        proof {
            assert(v@ =~= self.ints());
        }
        v
    }
}

impl Projectile {
    /// Reads the object as a message from `p`; a message read in full
    /// warns about bytes left over, which it consumes.
    pub fn decode_msg(warns: &mut Vec<Warning>, p: &mut Unpacker) -> (r: Result<Projectile, Error>)
        ensures
            decoded_msg(
                int_fields(Projectile::bounds()),
                old(p)@,
                final(p)@,
                old(warns)@,
                final(warns)@,
                match r {
                    Ok(x) => Ok(int_items(x.ints())),
                    Err(e) => Err(e),
                },
            ),
    {
        let fields: [Field; 6] = [Field::Int(i32::MIN, i32::MAX), Field::Int(i32::MIN, i32::MAX), Field::Int(i32::MIN, i32::MAX), Field::Int(i32::MIN, i32::MAX), Field::Int(0i32, 5i32), Field::Int(i32::MIN, i32::MAX)];
        proof {
            assert(fields@ =~= int_fields(Projectile::bounds()));
        }
        let v = match read_fields(warns, p, &fields) {
            Ok(v) => v,
            Err(e) => return Err(e),
        };
        proof {
            assert forall|i: int| 0 <= i < v@.len() implies (#[trigger] v@[i]) is Int by {
                crate::gamenet::msg::lemma_value_at(int_fields(Projectile::bounds()), v@, i);
            }
        }
        let ints = crate::gamenet::msg::ints_of(v.as_slice());
        proof {
            crate::gamenet::msg::lemma_int_items(Projectile::bounds(), items_of(v@), ints@);
        }
        let result = Projectile::from_ints(ints.as_slice());
        p.finish(warns);
        Ok(result)
    }

    /// Writes the object as a message into `p`; fails if it does not fit.
    pub fn encode_msg(&self, p: Packer) -> (r: Result<Vec<u8>, CapacityError>)
        ensures
            (r is Ok) <==> p@.len() + encoding(int_items(self.ints())).len() <= p.capacity(),
            r matches Ok(b) ==> b@ == p@ + encoding(int_items(self.ints())),
    {
        let ints = self.encode();
        let mut values: Vec<Value> = Vec::new();
        crate::gamenet::msg::push_ints(&mut values, ints.as_slice());
        proof {
            assert(items_of(values@) =~= int_items(self.ints()));
            lemma_projectile_roundtrip(*self, *self, Seq::empty());
            crate::gamenet::msg::lemma_int_fits(Projectile::bounds(), self.ints());
        }
        let mut p = p;
        match write_values(&mut p, values.as_slice()) {
            Ok(()) => Ok(p.written()),
            Err(e) => Err(e),
        }
    }
}

/// Decoding the integers of a valid `Projectile`, followed by anything, gives it
/// back: they are in bounds, and no other `Projectile` has the same integers.
pub proof fn lemma_projectile_roundtrip(x: Projectile, y: Projectile, rest: Seq<i32>)
    requires
        x.valid(),
    ensures
        fits(Projectile::bounds(), x.ints()),
        decode_error(Projectile::bounds(), x.ints() + rest) is None,
        (x.ints() + rest).subrange(0, 6) == x.ints(),
        y.ints() == x.ints() ==> y == x,
{
    assert forall|i: int| 0 <= i < 6 implies #[trigger] crate::gamenet::in_bounds(Projectile::bounds()[i], x.ints()[i]) by {
        enums::lemma_weapon_values(x.type_, 0);
    }
    lemma_decode_fits(Projectile::bounds(), x.ints(), rest);
    if y.ints() == x.ints() {
        assert forall|i: int| 0 <= i < 6 implies y.ints()[i] == x.ints()[i] by {}
        assert(y.ints()[0] == x.ints()[0]);
        assert(y.ints()[1] == x.ints()[1]);
        assert(y.ints()[2] == x.ints()[2]);
        assert(y.ints()[3] == x.ints()[3]);
        assert(y.ints()[4] == x.ints()[4]);
        enums::lemma_weapon_values(x.type_, 0);
        enums::lemma_weapon_values(y.type_, 0);
        assert(y.ints()[5] == x.ints()[5]);
    }
}

impl Laser {
    /// The integers the object is sent as.
    pub open spec fn ints(self) -> Seq<i32> {
        seq![self.x, self.y, self.from_x, self.from_y, self.start_tick.0]
    }

    /// The bounds of each of the integers.
    pub open spec fn bounds() -> Seq<(i32, i32)> {
        seq![(i32::MIN, i32::MAX), (i32::MIN, i32::MAX), (i32::MIN, i32::MAX), (i32::MIN, i32::MAX), (i32::MIN, i32::MAX)]
    }

    /// The fields lie in their ranges.
    pub open spec fn valid(self) -> bool {
        true
    }

    pub(crate) fn from_ints(v: &[i32]) -> (r: Laser)
        requires
            fits(Laser::bounds(), v@),
        ensures
            r.ints() == v@,
    {
        proof {
            assert forall|i: int| 0 <= i < 5 implies crate::gamenet::in_bounds(Laser::bounds()[i], v@[i]) by {
                assert(crate::gamenet::in_bounds(Laser::bounds()[i], v@[i]));
            }
        }
        let r = Laser {
            x: v[0],
            y: v[1],
            from_x: v[2],
            from_y: v[3],
            start_tick: Tick(v[4]),
        };
        proof {
            assert(r.ints() =~= v@);
        }
        r
    }

    /// Reads the object's integers from `p`.
    pub fn decode_inner(p: &mut IntUnpacker) -> (r: Result<Laser, Error>)
        ensures
            decoded(
                Laser::bounds(),
                old(p)@,
                final(p)@,
                match r {
                    Ok(x) => Ok(x.ints()),
                    Err(e) => Err(e),
                },
            ),
    {
        let bounds: [(i32, i32); 5] = [(i32::MIN, i32::MAX), (i32::MIN, i32::MAX), (i32::MIN, i32::MAX), (i32::MIN, i32::MAX), (i32::MIN, i32::MAX)];
        proof {
            assert(bounds@ =~= Laser::bounds());
        }
        match read_int_fields(p, &bounds) {
            Ok(v) => Ok(Laser::from_ints(v.as_slice())),
            Err(e) => Err(e),
        }
    }

    /// Reads the object from `p`, warning about integers left over.
    pub fn decode(warns: &mut Vec<ExcessData>, p: &mut IntUnpacker) -> (r: Result<Laser, Error>)
        ensures
            decoded_all(
                Laser::bounds(),
                old(p)@,
                final(p)@,
                match r {
                    Ok(x) => Ok(x.ints()),
                    Err(e) => Err(e),
                },
                old(warns)@,
                final(warns)@,
            ),
    {
        let result = match Laser::decode_inner(p) {
            Ok(x) => x,
            Err(e) => return Err(e),
        };
        p.finish(warns);
        Ok(result)
    }

    /// The integers the object is sent as.
    pub fn encode(&self) -> (r: Vec<i32>)
        ensures
            r@ == self.ints(),
    {
        let mut v: Vec<i32> = Vec::new();
        v.push(self.x);
        v.push(self.y);
        v.push(self.from_x);
        v.push(self.from_y);
        v.push(self.start_tick.0);
        proof {
            assert(v@ =~= self.ints());
        }
        v
    }
}

/// Decoding the integers of a valid `Laser`, followed by anything, gives it
/// back: they are in bounds, and no other `Laser` has the same integers.
pub proof fn lemma_laser_roundtrip(x: Laser, y: Laser, rest: Seq<i32>)
    requires
        x.valid(),
    ensures
        fits(Laser::bounds(), x.ints()),
        decode_error(Laser::bounds(), x.ints() + rest) is None,
        (x.ints() + rest).subrange(0, 5) == x.ints(),
        y.ints() == x.ints() ==> y == x,
{
    assert forall|i: int| 0 <= i < 5 implies #[trigger] crate::gamenet::in_bounds(Laser::bounds()[i], x.ints()[i]) by {
    }
    lemma_decode_fits(Laser::bounds(), x.ints(), rest);
    if y.ints() == x.ints() {
        assert forall|i: int| 0 <= i < 5 implies y.ints()[i] == x.ints()[i] by {}
        assert(y.ints()[0] == x.ints()[0]);
        assert(y.ints()[1] == x.ints()[1]);
        assert(y.ints()[2] == x.ints()[2]);
        assert(y.ints()[3] == x.ints()[3]);
        assert(y.ints()[4] == x.ints()[4]);
    }
}

impl Pickup {
    /// The integers the object is sent as.
    pub open spec fn ints(self) -> Seq<i32> {
        seq![self.x, self.y, self.type_.value()]
    }

    /// The bounds of each of the integers.
    pub open spec fn bounds() -> Seq<(i32, i32)> {
        seq![(i32::MIN, i32::MAX), (i32::MIN, i32::MAX), (0i32, 7i32)]
    }

    /// The fields lie in their ranges.
    pub open spec fn valid(self) -> bool {
        true
    }

    pub(crate) fn from_ints(v: &[i32]) -> (r: Pickup)
        requires
            fits(Pickup::bounds(), v@),
        ensures
            r.ints() == v@,
    {
        proof {
            assert forall|i: int| 0 <= i < 3 implies crate::gamenet::in_bounds(Pickup::bounds()[i], v@[i]) by {
                assert(crate::gamenet::in_bounds(Pickup::bounds()[i], v@[i]));
            }
        }
        proof {
            assert(crate::gamenet::in_bounds(Pickup::bounds()[2], v@[2]));
        }
        let type_ = match enums::Pickup::from_i32(v[2]) {
            Ok(e) => e,
            Err(_) => {
                proof {
                    assert(false);
                }
                enums::Pickup::Health
            },
        };
        proof {
            enums::lemma_pickup_values(type_, v[2]);
        }
        let r = Pickup {
            x: v[0],
            y: v[1],
            type_,
        };
        proof {
            assert(r.ints() =~= v@);
        }
        r
    }

    /// Reads the object's integers from `p`.
    pub fn decode_inner(p: &mut IntUnpacker) -> (r: Result<Pickup, Error>)
        ensures
            decoded(
                Pickup::bounds(),
                old(p)@,
                final(p)@,
                match r {
                    Ok(x) => Ok(x.ints()),
                    Err(e) => Err(e),
                },
            ),
    {
        let bounds: [(i32, i32); 3] = [(i32::MIN, i32::MAX), (i32::MIN, i32::MAX), (0i32, 7i32)];
        proof {
            assert(bounds@ =~= Pickup::bounds());
        }
        match read_int_fields(p, &bounds) {
            Ok(v) => Ok(Pickup::from_ints(v.as_slice())),
            Err(e) => Err(e),
        }
    }

    /// Reads the object from `p`, warning about integers left over.
    pub fn decode(warns: &mut Vec<ExcessData>, p: &mut IntUnpacker) -> (r: Result<Pickup, Error>)
        ensures
            decoded_all(
                Pickup::bounds(),
                old(p)@,
                final(p)@,
                match r {
                    Ok(x) => Ok(x.ints()),
                    Err(e) => Err(e),
                },
                old(warns)@,
                final(warns)@,
            ),
    {
        let result = match Pickup::decode_inner(p) {
            Ok(x) => x,
            Err(e) => return Err(e),
        };
        p.finish(warns);
        Ok(result)
    }

    /// The integers the object is sent as.
    pub fn encode(&self) -> (r: Vec<i32>)
        ensures
            r@ == self.ints(),
    {
        let mut v: Vec<i32> = Vec::new();
        v.push(self.x);
        v.push(self.y);
        v.push(self.type_.to_i32());
        proof {
            assert(v@ =~= self.ints());
        }
        v
    }
}

/// Decoding the integers of a valid `Pickup`, followed by anything, gives it
/// back: they are in bounds, and no other `Pickup` has the same integers.
pub proof fn lemma_pickup_roundtrip(x: Pickup, y: Pickup, rest: Seq<i32>)
    requires
        x.valid(),
    ensures
        fits(Pickup::bounds(), x.ints()),
        decode_error(Pickup::bounds(), x.ints() + rest) is None,
        (x.ints() + rest).subrange(0, 3) == x.ints(),
        y.ints() == x.ints() ==> y == x,
{
    assert forall|i: int| 0 <= i < 3 implies #[trigger] crate::gamenet::in_bounds(Pickup::bounds()[i], x.ints()[i]) by {
        enums::lemma_pickup_values(x.type_, 0);
    }
    lemma_decode_fits(Pickup::bounds(), x.ints(), rest);
    if y.ints() == x.ints() {
        assert forall|i: int| 0 <= i < 3 implies y.ints()[i] == x.ints()[i] by {}
        assert(y.ints()[0] == x.ints()[0]);
        assert(y.ints()[1] == x.ints()[1]);
        assert(y.ints()[2] == x.ints()[2]);
        enums::lemma_pickup_values(x.type_, 0);
        enums::lemma_pickup_values(y.type_, 0);
    }
}

impl Flag {
    /// The integers the object is sent as.
    pub open spec fn ints(self) -> Seq<i32> {
        seq![self.x, self.y, self.team]
    }

    /// The bounds of each of the integers.
    pub open spec fn bounds() -> Seq<(i32, i32)> {
        seq![(i32::MIN, i32::MAX), (i32::MIN, i32::MAX), (0i32, 1i32)]
    }

    /// The fields lie in their ranges.
    pub open spec fn valid(self) -> bool {
        &&& 0 <= self.team && self.team <= 1
    }

    pub(crate) fn from_ints(v: &[i32]) -> (r: Flag)
        requires
            fits(Flag::bounds(), v@),
        ensures
            r.ints() == v@,
    {
        proof {
            assert forall|i: int| 0 <= i < 3 implies crate::gamenet::in_bounds(Flag::bounds()[i], v@[i]) by {
                assert(crate::gamenet::in_bounds(Flag::bounds()[i], v@[i]));
            }
        }
        let r = Flag {
            x: v[0],
            y: v[1],
            team: v[2],
        };
        proof {
            assert(r.ints() =~= v@);
        }
        r
    }

    /// Reads the object's integers from `p`.
    pub fn decode_inner(p: &mut IntUnpacker) -> (r: Result<Flag, Error>)
        ensures
            decoded(
                Flag::bounds(),
                old(p)@,
                final(p)@,
                match r {
                    Ok(x) => Ok(x.ints()),
                    Err(e) => Err(e),
                },
            ),
    {
        let bounds: [(i32, i32); 3] = [(i32::MIN, i32::MAX), (i32::MIN, i32::MAX), (0i32, 1i32)];
        proof {
            assert(bounds@ =~= Flag::bounds());
        }
        match read_int_fields(p, &bounds) {
            Ok(v) => Ok(Flag::from_ints(v.as_slice())),
            Err(e) => Err(e),
        }
    }

    /// Reads the object from `p`, warning about integers left over.
    pub fn decode(warns: &mut Vec<ExcessData>, p: &mut IntUnpacker) -> (r: Result<Flag, Error>)
        ensures
            decoded_all(
                Flag::bounds(),
                old(p)@,
                final(p)@,
                match r {
                    Ok(x) => Ok(x.ints()),
                    Err(e) => Err(e),
                },
                old(warns)@,
                final(warns)@,
            ),
    {
        let result = match Flag::decode_inner(p) {
            Ok(x) => x,
            Err(e) => return Err(e),
        };
        p.finish(warns);
        Ok(result)
    }

    /// The integers the object is sent as.
    pub fn encode(&self) -> (r: Vec<i32>)
        requires
            self.valid(),
        ensures
            r@ == self.ints(),
    {
        let mut v: Vec<i32> = Vec::new();
        v.push(self.x);
        v.push(self.y);
        v.push(self.team);
        proof {
            assert(v@ =~= self.ints());
        }
        v
    }
}

/// Decoding the integers of a valid `Flag`, followed by anything, gives it
/// back: they are in bounds, and no other `Flag` has the same integers.
pub proof fn lemma_flag_roundtrip(x: Flag, y: Flag, rest: Seq<i32>)
    requires
        x.valid(),
    ensures
        fits(Flag::bounds(), x.ints()),
        decode_error(Flag::bounds(), x.ints() + rest) is None,
        (x.ints() + rest).subrange(0, 3) == x.ints(),
        y.ints() == x.ints() ==> y == x,
{
    assert forall|i: int| 0 <= i < 3 implies #[trigger] crate::gamenet::in_bounds(Flag::bounds()[i], x.ints()[i]) by {
    }
    lemma_decode_fits(Flag::bounds(), x.ints(), rest);
    if y.ints() == x.ints() {
        assert forall|i: int| 0 <= i < 3 implies y.ints()[i] == x.ints()[i] by {}
        assert(y.ints()[0] == x.ints()[0]);
        assert(y.ints()[1] == x.ints()[1]);
        assert(y.ints()[2] == x.ints()[2]);
    }
}

impl GameData {
    /// The integers the object is sent as.
    pub open spec fn ints(self) -> Seq<i32> {
        seq![self.game_start_tick.0, self.game_state_flags, self.game_state_end_tick.0]
    }

    /// The bounds of each of the integers.
    pub open spec fn bounds() -> Seq<(i32, i32)> {
        seq![(i32::MIN, i32::MAX), (i32::MIN, i32::MAX), (i32::MIN, i32::MAX)]
    }

    /// The fields lie in their ranges.
    pub open spec fn valid(self) -> bool {
        true
    }

    pub(crate) fn from_ints(v: &[i32]) -> (r: GameData)
        requires
            fits(GameData::bounds(), v@),
        ensures
            r.ints() == v@,
    {
        proof {
            assert forall|i: int| 0 <= i < 3 implies crate::gamenet::in_bounds(GameData::bounds()[i], v@[i]) by {
                assert(crate::gamenet::in_bounds(GameData::bounds()[i], v@[i]));
            }
        }
        let r = GameData {
            game_start_tick: Tick(v[0]),
            game_state_flags: v[1],
            game_state_end_tick: Tick(v[2]),
        };
        proof {
            assert(r.ints() =~= v@);
        }
        r
    }

    /// Reads the object's integers from `p`.
    pub fn decode_inner(p: &mut IntUnpacker) -> (r: Result<GameData, Error>)
        ensures
            decoded(
                GameData::bounds(),
                old(p)@,
                final(p)@,
                match r {
                    Ok(x) => Ok(x.ints()),
                    Err(e) => Err(e),
                },
            ),
    {
        let bounds: [(i32, i32); 3] = [(i32::MIN, i32::MAX), (i32::MIN, i32::MAX), (i32::MIN, i32::MAX)];
        proof {
            assert(bounds@ =~= GameData::bounds());
        }
        match read_int_fields(p, &bounds) {
            Ok(v) => Ok(GameData::from_ints(v.as_slice())),
            Err(e) => Err(e),
        }
    }

    /// Reads the object from `p`, warning about integers left over.
    pub fn decode(warns: &mut Vec<ExcessData>, p: &mut IntUnpacker) -> (r: Result<GameData, Error>)
        ensures
            decoded_all(
                GameData::bounds(),
                old(p)@,
                final(p)@,
                match r {
                    Ok(x) => Ok(x.ints()),
                    Err(e) => Err(e),
                },
                old(warns)@,
                final(warns)@,
            ),
    {
        let result = match GameData::decode_inner(p) {
            Ok(x) => x,
            Err(e) => return Err(e),
        };
        p.finish(warns);
        Ok(result)
    }

    /// The integers the object is sent as.
    pub fn encode(&self) -> (r: Vec<i32>)
        ensures
            r@ == self.ints(),
    {
        let mut v: Vec<i32> = Vec::new();
        v.push(self.game_start_tick.0);
        v.push(self.game_state_flags);
        v.push(self.game_state_end_tick.0);
        proof {
            assert(v@ =~= self.ints());
        }
        v
    }
}

/// Decoding the integers of a valid `GameData`, followed by anything, gives it
/// back: they are in bounds, and no other `GameData` has the same integers.
pub proof fn lemma_game_data_roundtrip(x: GameData, y: GameData, rest: Seq<i32>)
    requires
        x.valid(),
    ensures
        fits(GameData::bounds(), x.ints()),
        decode_error(GameData::bounds(), x.ints() + rest) is None,
        (x.ints() + rest).subrange(0, 3) == x.ints(),
        y.ints() == x.ints() ==> y == x,
{
    assert forall|i: int| 0 <= i < 3 implies #[trigger] crate::gamenet::in_bounds(GameData::bounds()[i], x.ints()[i]) by {
    }
    lemma_decode_fits(GameData::bounds(), x.ints(), rest);
    if y.ints() == x.ints() {
        assert forall|i: int| 0 <= i < 3 implies y.ints()[i] == x.ints()[i] by {}
        assert(y.ints()[0] == x.ints()[0]);
        assert(y.ints()[1] == x.ints()[1]);
        assert(y.ints()[2] == x.ints()[2]);
    }
}

impl GameDataTeam {
    /// The integers the object is sent as.
    pub open spec fn ints(self) -> Seq<i32> {
        seq![self.teamscore_red, self.teamscore_blue]
    }

    /// The bounds of each of the integers.
    pub open spec fn bounds() -> Seq<(i32, i32)> {
        seq![(i32::MIN, i32::MAX), (i32::MIN, i32::MAX)]
    }

    /// The fields lie in their ranges.
    pub open spec fn valid(self) -> bool {
        true
    }

    pub(crate) fn from_ints(v: &[i32]) -> (r: GameDataTeam)
        requires
            fits(GameDataTeam::bounds(), v@),
        ensures
            r.ints() == v@,
    {
        proof {
            assert forall|i: int| 0 <= i < 2 implies crate::gamenet::in_bounds(GameDataTeam::bounds()[i], v@[i]) by {
                assert(crate::gamenet::in_bounds(GameDataTeam::bounds()[i], v@[i]));
            }
        }
        let r = GameDataTeam {
            teamscore_red: v[0],
            teamscore_blue: v[1],
        };
        proof {
            assert(r.ints() =~= v@);
        }
        r
    }

    /// Reads the object's integers from `p`.
    pub fn decode_inner(p: &mut IntUnpacker) -> (r: Result<GameDataTeam, Error>)
        ensures
            decoded(
                GameDataTeam::bounds(),
                old(p)@,
                final(p)@,
                match r {
                    Ok(x) => Ok(x.ints()),
                    Err(e) => Err(e),
                },
            ),
    {
        let bounds: [(i32, i32); 2] = [(i32::MIN, i32::MAX), (i32::MIN, i32::MAX)];
        proof {
            assert(bounds@ =~= GameDataTeam::bounds());
        }
        match read_int_fields(p, &bounds) {
            Ok(v) => Ok(GameDataTeam::from_ints(v.as_slice())),
            Err(e) => Err(e),
        }
    }

    /// Reads the object from `p`, warning about integers left over.
    pub fn decode(warns: &mut Vec<ExcessData>, p: &mut IntUnpacker) -> (r: Result<GameDataTeam, Error>)
        ensures
            decoded_all(
                GameDataTeam::bounds(),
                old(p)@,
                final(p)@,
                match r {
                    Ok(x) => Ok(x.ints()),
                    Err(e) => Err(e),
                },
                old(warns)@,
                final(warns)@,
            ),
    {
        let result = match GameDataTeam::decode_inner(p) {
            Ok(x) => x,
            Err(e) => return Err(e),
        };
        p.finish(warns);
        Ok(result)
    }

    /// The integers the object is sent as.
    pub fn encode(&self) -> (r: Vec<i32>)
        ensures
            r@ == self.ints(),
    {
        let mut v: Vec<i32> = Vec::new();
        v.push(self.teamscore_red);
        v.push(self.teamscore_blue);
        proof {
            assert(v@ =~= self.ints());
        }
        v
    }
}

/// Decoding the integers of a valid `GameDataTeam`, followed by anything, gives it
/// back: they are in bounds, and no other `GameDataTeam` has the same integers.
pub proof fn lemma_game_data_team_roundtrip(x: GameDataTeam, y: GameDataTeam, rest: Seq<i32>)
    requires
        x.valid(),
    ensures
        fits(GameDataTeam::bounds(), x.ints()),
        decode_error(GameDataTeam::bounds(), x.ints() + rest) is None,
        (x.ints() + rest).subrange(0, 2) == x.ints(),
        y.ints() == x.ints() ==> y == x,
{
    assert forall|i: int| 0 <= i < 2 implies #[trigger] crate::gamenet::in_bounds(GameDataTeam::bounds()[i], x.ints()[i]) by {
    }
    lemma_decode_fits(GameDataTeam::bounds(), x.ints(), rest);
    if y.ints() == x.ints() {
        assert forall|i: int| 0 <= i < 2 implies y.ints()[i] == x.ints()[i] by {}
        assert(y.ints()[0] == x.ints()[0]);
        assert(y.ints()[1] == x.ints()[1]);
    }
}

impl GameDataFlag {
    /// The integers the object is sent as.
    pub open spec fn ints(self) -> Seq<i32> {
        seq![self.flag_carrier_red, self.flag_carrier_blue, self.flag_drop_tick_red.0, self.flag_drop_tick_blue.0]
    }

    /// The bounds of each of the integers.
    pub open spec fn bounds() -> Seq<(i32, i32)> {
        seq![(-3i32, 63i32), (-3i32, 63i32), (i32::MIN, i32::MAX), (i32::MIN, i32::MAX)]
    }

    /// The fields lie in their ranges.
    pub open spec fn valid(self) -> bool {
        &&& -3 <= self.flag_carrier_red && self.flag_carrier_red <= 63
        &&& -3 <= self.flag_carrier_blue && self.flag_carrier_blue <= 63
    }

    pub(crate) fn from_ints(v: &[i32]) -> (r: GameDataFlag)
        requires
            fits(GameDataFlag::bounds(), v@),
        ensures
            r.ints() == v@,
    {
        proof {
            assert forall|i: int| 0 <= i < 4 implies crate::gamenet::in_bounds(GameDataFlag::bounds()[i], v@[i]) by {
                assert(crate::gamenet::in_bounds(GameDataFlag::bounds()[i], v@[i]));
            }
        }
        let r = GameDataFlag {
            flag_carrier_red: v[0],
            flag_carrier_blue: v[1],
            flag_drop_tick_red: Tick(v[2]),
            flag_drop_tick_blue: Tick(v[3]),
        };
        proof {
            assert(r.ints() =~= v@);
        }
        r
    }

    /// Reads the object's integers from `p`.
    pub fn decode_inner(p: &mut IntUnpacker) -> (r: Result<GameDataFlag, Error>)
        ensures
            decoded(
                GameDataFlag::bounds(),
                old(p)@,
                final(p)@,
                match r {
                    Ok(x) => Ok(x.ints()),
                    Err(e) => Err(e),
                },
            ),
    {
        let bounds: [(i32, i32); 4] = [(-3i32, 63i32), (-3i32, 63i32), (i32::MIN, i32::MAX), (i32::MIN, i32::MAX)];
        proof {
            assert(bounds@ =~= GameDataFlag::bounds());
        }
        match read_int_fields(p, &bounds) {
            Ok(v) => Ok(GameDataFlag::from_ints(v.as_slice())),
            Err(e) => Err(e),
        }
    }

    /// Reads the object from `p`, warning about integers left over.
    pub fn decode(warns: &mut Vec<ExcessData>, p: &mut IntUnpacker) -> (r: Result<GameDataFlag, Error>)
        ensures
            decoded_all(
                GameDataFlag::bounds(),
                old(p)@,
                final(p)@,
                match r {
                    Ok(x) => Ok(x.ints()),
                    Err(e) => Err(e),
                },
                old(warns)@,
                final(warns)@,
            ),
    {
        let result = match GameDataFlag::decode_inner(p) {
            Ok(x) => x,
            Err(e) => return Err(e),
        };
        p.finish(warns);
        Ok(result)
    }

    /// The integers the object is sent as.
    pub fn encode(&self) -> (r: Vec<i32>)
        requires
            self.valid(),
        ensures
            r@ == self.ints(),
    {
        let mut v: Vec<i32> = Vec::new();
        v.push(self.flag_carrier_red);
        v.push(self.flag_carrier_blue);
        v.push(self.flag_drop_tick_red.0);
        v.push(self.flag_drop_tick_blue.0);
        proof {
            assert(v@ =~= self.ints());
        }
        v
    }
}

/// Decoding the integers of a valid `GameDataFlag`, followed by anything, gives it
/// back: they are in bounds, and no other `GameDataFlag` has the same integers.
pub proof fn lemma_game_data_flag_roundtrip(x: GameDataFlag, y: GameDataFlag, rest: Seq<i32>)
    requires
        x.valid(),
    ensures
        fits(GameDataFlag::bounds(), x.ints()),
        decode_error(GameDataFlag::bounds(), x.ints() + rest) is None,
        (x.ints() + rest).subrange(0, 4) == x.ints(),
        y.ints() == x.ints() ==> y == x,
{
    assert forall|i: int| 0 <= i < 4 implies #[trigger] crate::gamenet::in_bounds(GameDataFlag::bounds()[i], x.ints()[i]) by {
    }
    lemma_decode_fits(GameDataFlag::bounds(), x.ints(), rest);
    if y.ints() == x.ints() {
        assert forall|i: int| 0 <= i < 4 implies y.ints()[i] == x.ints()[i] by {}
        assert(y.ints()[0] == x.ints()[0]);
        assert(y.ints()[1] == x.ints()[1]);
        assert(y.ints()[2] == x.ints()[2]);
        assert(y.ints()[3] == x.ints()[3]);
    }
}

impl CharacterCore {
    /// The integers the object is sent as.
    pub open spec fn ints(self) -> Seq<i32> {
        seq![self.tick.0, self.x, self.y, self.vel_x, self.vel_y, self.angle, self.direction, self.jumped, self.hooked_player, self.hook_state, self.hook_tick.0, self.hook_x, self.hook_y, self.hook_dx, self.hook_dy]
    }

    /// The bounds of each of the integers.
    pub open spec fn bounds() -> Seq<(i32, i32)> {
        seq![(i32::MIN, i32::MAX), (i32::MIN, i32::MAX), (i32::MIN, i32::MAX), (i32::MIN, i32::MAX), (i32::MIN, i32::MAX), (i32::MIN, i32::MAX), (-1i32, 1i32), (0i32, 3i32), (-1i32, 63i32), (-1i32, 5i32), (i32::MIN, i32::MAX), (i32::MIN, i32::MAX), (i32::MIN, i32::MAX), (i32::MIN, i32::MAX), (i32::MIN, i32::MAX)]
    }

    /// The fields lie in their ranges.
    pub open spec fn valid(self) -> bool {
        &&& -1 <= self.direction && self.direction <= 1
        &&& 0 <= self.jumped && self.jumped <= 3
        &&& -1 <= self.hooked_player && self.hooked_player <= 63
        &&& -1 <= self.hook_state && self.hook_state <= 5
    }

    pub(crate) fn from_ints(v: &[i32]) -> (r: CharacterCore)
        requires
            fits(CharacterCore::bounds(), v@),
        ensures
            r.ints() == v@,
    {
        proof {
            assert forall|i: int| 0 <= i < 15 implies crate::gamenet::in_bounds(CharacterCore::bounds()[i], v@[i]) by {
                assert(crate::gamenet::in_bounds(CharacterCore::bounds()[i], v@[i]));
            }
        }
        let r = CharacterCore {
            tick: Tick(v[0]),
            x: v[1],
            y: v[2],
            vel_x: v[3],
            vel_y: v[4],
            angle: v[5],
            direction: v[6],
            jumped: v[7],
            hooked_player: v[8],
            hook_state: v[9],
            hook_tick: Tick(v[10]),
            hook_x: v[11],
            hook_y: v[12],
            hook_dx: v[13],
            hook_dy: v[14],
        };
        proof {
            assert(r.ints() =~= v@);
        }
        r
    }

    /// Reads the object's integers from `p`.
    pub fn decode_inner(p: &mut IntUnpacker) -> (r: Result<CharacterCore, Error>)
        ensures
            decoded(
                CharacterCore::bounds(),
                old(p)@,
                final(p)@,
                match r {
                    Ok(x) => Ok(x.ints()),
                    Err(e) => Err(e),
                },
            ),
    {
        let bounds: [(i32, i32); 15] = [(i32::MIN, i32::MAX), (i32::MIN, i32::MAX), (i32::MIN, i32::MAX), (i32::MIN, i32::MAX), (i32::MIN, i32::MAX), (i32::MIN, i32::MAX), (-1i32, 1i32), (0i32, 3i32), (-1i32, 63i32), (-1i32, 5i32), (i32::MIN, i32::MAX), (i32::MIN, i32::MAX), (i32::MIN, i32::MAX), (i32::MIN, i32::MAX), (i32::MIN, i32::MAX)];
        proof {
            assert(bounds@ =~= CharacterCore::bounds());
        }
        match read_int_fields(p, &bounds) {
            Ok(v) => Ok(CharacterCore::from_ints(v.as_slice())),
            Err(e) => Err(e),
        }
    }

    /// Reads the object from `p`, warning about integers left over.
    pub fn decode(warns: &mut Vec<ExcessData>, p: &mut IntUnpacker) -> (r: Result<CharacterCore, Error>)
        ensures
            decoded_all(
                CharacterCore::bounds(),
                old(p)@,
                final(p)@,
                match r {
                    Ok(x) => Ok(x.ints()),
                    Err(e) => Err(e),
                },
                old(warns)@,
                final(warns)@,
            ),
    {
        let result = match CharacterCore::decode_inner(p) {
            Ok(x) => x,
            Err(e) => return Err(e),
        };
        p.finish(warns);
        Ok(result)
    }

    /// The integers the object is sent as.
    pub fn encode(&self) -> (r: Vec<i32>)
        requires
            self.valid(),
        ensures
            r@ == self.ints(),
    {
        let mut v: Vec<i32> = Vec::new();
        v.push(self.tick.0);
        v.push(self.x);
        v.push(self.y);
        v.push(self.vel_x);
        v.push(self.vel_y);
        v.push(self.angle);
        v.push(self.direction);
        v.push(self.jumped);
        v.push(self.hooked_player);
        v.push(self.hook_state);
        v.push(self.hook_tick.0);
        v.push(self.hook_x);
        v.push(self.hook_y);
        v.push(self.hook_dx);
        v.push(self.hook_dy);
        proof {
            assert(v@ =~= self.ints());
        }
        v
    }
}

/// Decoding the integers of a valid `CharacterCore`, followed by anything, gives it
/// back: they are in bounds, and no other `CharacterCore` has the same integers.
pub proof fn lemma_character_core_roundtrip(x: CharacterCore, y: CharacterCore, rest: Seq<i32>)
    requires
        x.valid(),
    ensures
        fits(CharacterCore::bounds(), x.ints()),
        decode_error(CharacterCore::bounds(), x.ints() + rest) is None,
        (x.ints() + rest).subrange(0, 15) == x.ints(),
        y.ints() == x.ints() ==> y == x,
{
    assert forall|i: int| 0 <= i < 15 implies #[trigger] crate::gamenet::in_bounds(CharacterCore::bounds()[i], x.ints()[i]) by {
    }
    lemma_decode_fits(CharacterCore::bounds(), x.ints(), rest);
    if y.ints() == x.ints() {
        assert forall|i: int| 0 <= i < 15 implies y.ints()[i] == x.ints()[i] by {}
        assert(y.ints()[0] == x.ints()[0]);
        assert(y.ints()[1] == x.ints()[1]);
        assert(y.ints()[2] == x.ints()[2]);
        assert(y.ints()[3] == x.ints()[3]);
        assert(y.ints()[4] == x.ints()[4]);
        assert(y.ints()[5] == x.ints()[5]);
        assert(y.ints()[6] == x.ints()[6]);
        assert(y.ints()[7] == x.ints()[7]);
        assert(y.ints()[8] == x.ints()[8]);
        assert(y.ints()[9] == x.ints()[9]);
        assert(y.ints()[10] == x.ints()[10]);
        assert(y.ints()[11] == x.ints()[11]);
        assert(y.ints()[12] == x.ints()[12]);
        assert(y.ints()[13] == x.ints()[13]);
        assert(y.ints()[14] == x.ints()[14]);
    }
}

impl Character {
    /// The integers the object is sent as.
    pub open spec fn ints(self) -> Seq<i32> {
        self.character_core.ints() + seq![self.health, self.armor, self.ammo_count, self.weapon.value(), self.emote.value(), self.attack_tick.0, self.triggered_events]
    }

    /// The bounds of each of the integers.
    pub open spec fn bounds() -> Seq<(i32, i32)> {
        CharacterCore::bounds() + seq![(0i32, 10i32), (0i32, 10i32), (i32::MIN, i32::MAX), (0i32, 5i32), (0i32, 5i32), (i32::MIN, i32::MAX), (i32::MIN, i32::MAX)]
    }

    /// The fields lie in their ranges.
    pub open spec fn valid(self) -> bool {
        &&& self.character_core.valid()
        &&& 0 <= self.health && self.health <= 10
        &&& 0 <= self.armor && self.armor <= 10
    }

    pub(crate) fn from_ints(v: &[i32]) -> (r: Character)
        requires
            fits(Character::bounds(), v@),
        ensures
            r.ints() == v@,
    {
        proof {
            assert forall|i: int| 0 <= i < 22 implies crate::gamenet::in_bounds(Character::bounds()[i], v@[i]) by {
                assert(crate::gamenet::in_bounds(Character::bounds()[i], v@[i]));
            }
        }
        proof {
            assert(Character::bounds() =~= CharacterCore::bounds() + Character::bounds().subrange(15, 22));
            lemma_fits_split(CharacterCore::bounds(), Character::bounds().subrange(15, 22), v@);
        }
        let character_core = CharacterCore::from_ints(ints_prefix(v, 15));
        proof {
            assert(crate::gamenet::in_bounds(Character::bounds()[18], v@[18]));
        }
        let weapon = match enums::Weapon::from_i32(v[18]) {
            Ok(e) => e,
            Err(_) => {
                proof {
                    assert(false);
                }
                enums::Weapon::Hammer
            },
        };
        proof {
            enums::lemma_weapon_values(weapon, v[18]);
        }
        proof {
            assert(crate::gamenet::in_bounds(Character::bounds()[19], v@[19]));
        }
        let emote = match enums::Emote::from_i32(v[19]) {
            Ok(e) => e,
            Err(_) => {
                proof {
                    assert(false);
                }
                enums::Emote::Normal
            },
        };
        proof {
            enums::lemma_emote_values(emote, v[19]);
        }
        let r = Character {
            character_core,
            health: v[15],
            armor: v[16],
            ammo_count: v[17],
            weapon,
            emote,
            attack_tick: Tick(v[20]),
            triggered_events: v[21],
        };
        proof {
            assert(r.ints() =~= v@);
        }
        r
    }

    /// Reads the object's integers from `p`.
    pub fn decode_inner(p: &mut IntUnpacker) -> (r: Result<Character, Error>)
        ensures
            decoded(
                Character::bounds(),
                old(p)@,
                final(p)@,
                match r {
                    Ok(x) => Ok(x.ints()),
                    Err(e) => Err(e),
                },
            ),
    {
        let bounds: [(i32, i32); 22] = [(i32::MIN, i32::MAX), (i32::MIN, i32::MAX), (i32::MIN, i32::MAX), (i32::MIN, i32::MAX), (i32::MIN, i32::MAX), (i32::MIN, i32::MAX), (-1i32, 1i32), (0i32, 3i32), (-1i32, 63i32), (-1i32, 5i32), (i32::MIN, i32::MAX), (i32::MIN, i32::MAX), (i32::MIN, i32::MAX), (i32::MIN, i32::MAX), (i32::MIN, i32::MAX), (0i32, 10i32), (0i32, 10i32), (i32::MIN, i32::MAX), (0i32, 5i32), (0i32, 5i32), (i32::MIN, i32::MAX), (i32::MIN, i32::MAX)];
        proof {
            assert(bounds@ =~= Character::bounds());
        }
        match read_int_fields(p, &bounds) {
            Ok(v) => Ok(Character::from_ints(v.as_slice())),
            Err(e) => Err(e),
        }
    }

    /// Reads the object from `p`, warning about integers left over.
    pub fn decode(warns: &mut Vec<ExcessData>, p: &mut IntUnpacker) -> (r: Result<Character, Error>)
        ensures
            decoded_all(
                Character::bounds(),
                old(p)@,
                final(p)@,
                match r {
                    Ok(x) => Ok(x.ints()),
                    Err(e) => Err(e),
                },
                old(warns)@,
                final(warns)@,
            ),
    {
        let result = match Character::decode_inner(p) {
            Ok(x) => x,
            Err(e) => return Err(e),
        };
        p.finish(warns);
        Ok(result)
    }

    /// The integers the object is sent as.
    pub fn encode(&self) -> (r: Vec<i32>)
        requires
            self.valid(),
        ensures
            r@ == self.ints(),
    {
        let mut v = self.character_core.encode();
        v.push(self.health);
        v.push(self.armor);
        v.push(self.ammo_count);
        v.push(self.weapon.to_i32());
        v.push(self.emote.to_i32());
        v.push(self.attack_tick.0);
        v.push(self.triggered_events);
        proof {
            assert(v@ =~= self.ints());
        }
        v
    }
}

/// Decoding the integers of a valid `Character`, followed by anything, gives it
/// back: they are in bounds, and no other `Character` has the same integers.
pub proof fn lemma_character_roundtrip(x: Character, y: Character, rest: Seq<i32>)
    requires
        x.valid(),
    ensures
        fits(Character::bounds(), x.ints()),
        decode_error(Character::bounds(), x.ints() + rest) is None,
        (x.ints() + rest).subrange(0, 22) == x.ints(),
        y.ints() == x.ints() ==> y == x,
{
    lemma_character_core_roundtrip(x.character_core, y.character_core, Seq::empty());
    assert forall|i: int| 0 <= i < 22 implies #[trigger] crate::gamenet::in_bounds(Character::bounds()[i], x.ints()[i]) by {
        lemma_decode_fits(CharacterCore::bounds(), x.character_core.ints(), Seq::empty());
        if i < 15 {
            assert(crate::gamenet::in_bounds(CharacterCore::bounds()[i], x.character_core.ints()[i]));
        }
        enums::lemma_weapon_values(x.weapon, 0);
        enums::lemma_emote_values(x.emote, 0);
    }
    lemma_decode_fits(Character::bounds(), x.ints(), rest);
    if y.ints() == x.ints() {
        assert forall|i: int| 0 <= i < 22 implies y.ints()[i] == x.ints()[i] by {}
        assert(y.character_core.ints() =~= x.character_core.ints()) by {
            assert forall|i: int| 0 <= i < 15 implies y.character_core.ints()[i] == x.character_core.ints()[i] by {
                assert(y.ints()[i] == x.ints()[i]);
            }
        }
        assert(y.ints()[15] == x.ints()[15]);
        assert(y.ints()[16] == x.ints()[16]);
        assert(y.ints()[17] == x.ints()[17]);
        assert(y.ints()[18] == x.ints()[18]);
        enums::lemma_weapon_values(x.weapon, 0);
        enums::lemma_weapon_values(y.weapon, 0);
        assert(y.ints()[19] == x.ints()[19]);
        enums::lemma_emote_values(x.emote, 0);
        enums::lemma_emote_values(y.emote, 0);
        assert(y.ints()[20] == x.ints()[20]);
        assert(y.ints()[21] == x.ints()[21]);
    }
}

impl PlayerInfo {
    /// The integers the object is sent as.
    pub open spec fn ints(self) -> Seq<i32> {
        seq![self.player_flags, self.score, self.latency]
    }

    /// The bounds of each of the integers.
    pub open spec fn bounds() -> Seq<(i32, i32)> {
        seq![(i32::MIN, i32::MAX), (i32::MIN, i32::MAX), (i32::MIN, i32::MAX)]
    }

    /// The fields lie in their ranges.
    pub open spec fn valid(self) -> bool {
        true
    }

    pub(crate) fn from_ints(v: &[i32]) -> (r: PlayerInfo)
        requires
            fits(PlayerInfo::bounds(), v@),
        ensures
            r.ints() == v@,
    {
        proof {
            assert forall|i: int| 0 <= i < 3 implies crate::gamenet::in_bounds(PlayerInfo::bounds()[i], v@[i]) by {
                assert(crate::gamenet::in_bounds(PlayerInfo::bounds()[i], v@[i]));
            }
        }
        let r = PlayerInfo {
            player_flags: v[0],
            score: v[1],
            latency: v[2],
        };
        proof {
            assert(r.ints() =~= v@);
        }
        r
    }

    /// Reads the object's integers from `p`.
    pub fn decode_inner(p: &mut IntUnpacker) -> (r: Result<PlayerInfo, Error>)
        ensures
            decoded(
                PlayerInfo::bounds(),
                old(p)@,
                final(p)@,
                match r {
                    Ok(x) => Ok(x.ints()),
                    Err(e) => Err(e),
                },
            ),
    {
        let bounds: [(i32, i32); 3] = [(i32::MIN, i32::MAX), (i32::MIN, i32::MAX), (i32::MIN, i32::MAX)];
        proof {
            assert(bounds@ =~= PlayerInfo::bounds());
        }
        match read_int_fields(p, &bounds) {
            Ok(v) => Ok(PlayerInfo::from_ints(v.as_slice())),
            Err(e) => Err(e),
        }
    }

    /// Reads the object from `p`, warning about integers left over.
    pub fn decode(warns: &mut Vec<ExcessData>, p: &mut IntUnpacker) -> (r: Result<PlayerInfo, Error>)
        ensures
            decoded_all(
                PlayerInfo::bounds(),
                old(p)@,
                final(p)@,
                match r {
                    Ok(x) => Ok(x.ints()),
                    Err(e) => Err(e),
                },
                old(warns)@,
                final(warns)@,
            ),
    {
        let result = match PlayerInfo::decode_inner(p) {
            Ok(x) => x,
            Err(e) => return Err(e),
        };
        p.finish(warns);
        Ok(result)
    }

    /// The integers the object is sent as.
    pub fn encode(&self) -> (r: Vec<i32>)
        ensures
            r@ == self.ints(),
    {
        let mut v: Vec<i32> = Vec::new();
        v.push(self.player_flags);
        v.push(self.score);
        v.push(self.latency);
        proof {
            assert(v@ =~= self.ints());
        }
        v
    }
}

/// Decoding the integers of a valid `PlayerInfo`, followed by anything, gives it
/// back: they are in bounds, and no other `PlayerInfo` has the same integers.
pub proof fn lemma_player_info_roundtrip(x: PlayerInfo, y: PlayerInfo, rest: Seq<i32>)
    requires
        x.valid(),
    ensures
        fits(PlayerInfo::bounds(), x.ints()),
        decode_error(PlayerInfo::bounds(), x.ints() + rest) is None,
        (x.ints() + rest).subrange(0, 3) == x.ints(),
        y.ints() == x.ints() ==> y == x,
{
    assert forall|i: int| 0 <= i < 3 implies #[trigger] crate::gamenet::in_bounds(PlayerInfo::bounds()[i], x.ints()[i]) by {
    }
    lemma_decode_fits(PlayerInfo::bounds(), x.ints(), rest);
    if y.ints() == x.ints() {
        assert forall|i: int| 0 <= i < 3 implies y.ints()[i] == x.ints()[i] by {}
        assert(y.ints()[0] == x.ints()[0]);
        assert(y.ints()[1] == x.ints()[1]);
        assert(y.ints()[2] == x.ints()[2]);
    }
}

impl SpectatorInfo {
    /// The integers the object is sent as.
    pub open spec fn ints(self) -> Seq<i32> {
        seq![self.spec_mode.value(), self.spectator_id, self.x, self.y]
    }

    /// The bounds of each of the integers.
    pub open spec fn bounds() -> Seq<(i32, i32)> {
        seq![(0i32, 3i32), (-1i32, 63i32), (i32::MIN, i32::MAX), (i32::MIN, i32::MAX)]
    }

    /// The fields lie in their ranges.
    pub open spec fn valid(self) -> bool {
        &&& -1 <= self.spectator_id && self.spectator_id <= 63
    }

    pub(crate) fn from_ints(v: &[i32]) -> (r: SpectatorInfo)
        requires
            fits(SpectatorInfo::bounds(), v@),
        ensures
            r.ints() == v@,
    {
        proof {
            assert forall|i: int| 0 <= i < 4 implies crate::gamenet::in_bounds(SpectatorInfo::bounds()[i], v@[i]) by {
                assert(crate::gamenet::in_bounds(SpectatorInfo::bounds()[i], v@[i]));
            }
        }
        proof {
            assert(crate::gamenet::in_bounds(SpectatorInfo::bounds()[0], v@[0]));
        }
        let spec_mode = match enums::Spec::from_i32(v[0]) {
            Ok(e) => e,
            Err(_) => {
                proof {
                    assert(false);
                }
                enums::Spec::Freeview
            },
        };
        proof {
            enums::lemma_spec_values(spec_mode, v[0]);
        }
        let r = SpectatorInfo {
            spec_mode,
            spectator_id: v[1],
            x: v[2],
            y: v[3],
        };
        proof {
            assert(r.ints() =~= v@);
        }
        r
    }

    /// Reads the object's integers from `p`.
    pub fn decode_inner(p: &mut IntUnpacker) -> (r: Result<SpectatorInfo, Error>)
        ensures
            decoded(
                SpectatorInfo::bounds(),
                old(p)@,
                final(p)@,
                match r {
                    Ok(x) => Ok(x.ints()),
                    Err(e) => Err(e),
                },
            ),
    {
        let bounds: [(i32, i32); 4] = [(0i32, 3i32), (-1i32, 63i32), (i32::MIN, i32::MAX), (i32::MIN, i32::MAX)];
        proof {
            assert(bounds@ =~= SpectatorInfo::bounds());
        }
        match read_int_fields(p, &bounds) {
            Ok(v) => Ok(SpectatorInfo::from_ints(v.as_slice())),
            Err(e) => Err(e),
        }
    }

    /// Reads the object from `p`, warning about integers left over.
    pub fn decode(warns: &mut Vec<ExcessData>, p: &mut IntUnpacker) -> (r: Result<SpectatorInfo, Error>)
        ensures
            decoded_all(
                SpectatorInfo::bounds(),
                old(p)@,
                final(p)@,
                match r {
                    Ok(x) => Ok(x.ints()),
                    Err(e) => Err(e),
                },
                old(warns)@,
                final(warns)@,
            ),
    {
        let result = match SpectatorInfo::decode_inner(p) {
            Ok(x) => x,
            Err(e) => return Err(e),
        };
        p.finish(warns);
        Ok(result)
    }

    /// The integers the object is sent as.
    pub fn encode(&self) -> (r: Vec<i32>)
        requires
            self.valid(),
        ensures
            r@ == self.ints(),
    {
        let mut v: Vec<i32> = Vec::new();
        v.push(self.spec_mode.to_i32());
        v.push(self.spectator_id);
        v.push(self.x);
        v.push(self.y);
        proof {
            assert(v@ =~= self.ints());
        }
        v
    }
}

/// Decoding the integers of a valid `SpectatorInfo`, followed by anything, gives it
/// back: they are in bounds, and no other `SpectatorInfo` has the same integers.
pub proof fn lemma_spectator_info_roundtrip(x: SpectatorInfo, y: SpectatorInfo, rest: Seq<i32>)
    requires
        x.valid(),
    ensures
        fits(SpectatorInfo::bounds(), x.ints()),
        decode_error(SpectatorInfo::bounds(), x.ints() + rest) is None,
        (x.ints() + rest).subrange(0, 4) == x.ints(),
        y.ints() == x.ints() ==> y == x,
{
    assert forall|i: int| 0 <= i < 4 implies #[trigger] crate::gamenet::in_bounds(SpectatorInfo::bounds()[i], x.ints()[i]) by {
        enums::lemma_spec_values(x.spec_mode, 0);
    }
    lemma_decode_fits(SpectatorInfo::bounds(), x.ints(), rest);
    if y.ints() == x.ints() {
        assert forall|i: int| 0 <= i < 4 implies y.ints()[i] == x.ints()[i] by {}
        assert(y.ints()[0] == x.ints()[0]);
        enums::lemma_spec_values(x.spec_mode, 0);
        enums::lemma_spec_values(y.spec_mode, 0);
        assert(y.ints()[1] == x.ints()[1]);
        assert(y.ints()[2] == x.ints()[2]);
        assert(y.ints()[3] == x.ints()[3]);
    }
}

impl DeClientInfo {
    /// The integers the object is sent as.
    pub open spec fn ints(self) -> Seq<i32> {
        seq![bool_int(self.local), self.team.value()] + self.name@ + self.clan@ + seq![self.country] + self.skin_part_names[0]@ + self.skin_part_names[1]@ + self.skin_part_names[2]@ + self.skin_part_names[3]@ + self.skin_part_names[4]@ + self.skin_part_names[5]@ + seq![bool_int(self.use_custom_colors[0]), bool_int(self.use_custom_colors[1]), bool_int(self.use_custom_colors[2]), bool_int(self.use_custom_colors[3]), bool_int(self.use_custom_colors[4]), bool_int(self.use_custom_colors[5])] + self.skin_part_colors@
    }

    /// The bounds of each of the integers.
    pub open spec fn bounds() -> Seq<(i32, i32)> {
        seq![(0i32, 1i32), (-1i32, 1i32), (i32::MIN, i32::MAX), (i32::MIN, i32::MAX), (i32::MIN, i32::MAX), (i32::MIN, i32::MAX), (i32::MIN, i32::MAX), (i32::MIN, i32::MAX), (i32::MIN, i32::MAX), (i32::MIN, i32::MAX), (i32::MIN, i32::MAX), (i32::MIN, i32::MAX), (i32::MIN, i32::MAX), (i32::MIN, i32::MAX), (i32::MIN, i32::MAX), (i32::MIN, i32::MAX), (i32::MIN, i32::MAX), (i32::MIN, i32::MAX), (i32::MIN, i32::MAX), (i32::MIN, i32::MAX), (i32::MIN, i32::MAX), (i32::MIN, i32::MAX), (i32::MIN, i32::MAX), (i32::MIN, i32::MAX), (i32::MIN, i32::MAX), (i32::MIN, i32::MAX), (i32::MIN, i32::MAX), (i32::MIN, i32::MAX), (i32::MIN, i32::MAX), (i32::MIN, i32::MAX), (i32::MIN, i32::MAX), (i32::MIN, i32::MAX), (i32::MIN, i32::MAX), (i32::MIN, i32::MAX), (i32::MIN, i32::MAX), (i32::MIN, i32::MAX), (i32::MIN, i32::MAX), (i32::MIN, i32::MAX), (i32::MIN, i32::MAX), (i32::MIN, i32::MAX), (i32::MIN, i32::MAX), (i32::MIN, i32::MAX), (i32::MIN, i32::MAX), (i32::MIN, i32::MAX), (i32::MIN, i32::MAX), (i32::MIN, i32::MAX), (0i32, 1i32), (0i32, 1i32), (0i32, 1i32), (0i32, 1i32), (0i32, 1i32), (0i32, 1i32), (i32::MIN, i32::MAX), (i32::MIN, i32::MAX), (i32::MIN, i32::MAX), (i32::MIN, i32::MAX), (i32::MIN, i32::MAX), (i32::MIN, i32::MAX)]
    }

    /// The fields lie in their ranges.
    pub open spec fn valid(self) -> bool {
        true
    }

    pub(crate) fn from_ints(v: &[i32]) -> (r: DeClientInfo)
        requires
            fits(DeClientInfo::bounds(), v@),
        ensures
            r.ints() == v@,
    {
        proof {
            assert forall|i: int| 0 <= i < 58 implies crate::gamenet::in_bounds(DeClientInfo::bounds()[i], v@[i]) by {
                assert(crate::gamenet::in_bounds(DeClientInfo::bounds()[i], v@[i]));
            }
        }
        proof {
            assert(crate::gamenet::in_bounds(DeClientInfo::bounds()[1], v@[1]));
        }
        let team = match enums::Team::from_i32(v[1]) {
            Ok(e) => e,
            Err(_) => {
                proof {
                    assert(false);
                }
                enums::Team::Spectators
            },
        };
        proof {
            enums::lemma_team_values(team, v[1]);
        }
        let r = DeClientInfo {
            local: v[0] != 0,
            team,
            name: [v[2], v[3], v[4], v[5]],
            clan: [v[6], v[7], v[8]],
            country: v[9],
            skin_part_names: [[v[10], v[11], v[12], v[13], v[14], v[15]], [v[16], v[17], v[18], v[19], v[20], v[21]], [v[22], v[23], v[24], v[25], v[26], v[27]], [v[28], v[29], v[30], v[31], v[32], v[33]], [v[34], v[35], v[36], v[37], v[38], v[39]], [v[40], v[41], v[42], v[43], v[44], v[45]]],
            use_custom_colors: [v[46] != 0, v[47] != 0, v[48] != 0, v[49] != 0, v[50] != 0, v[51] != 0],
            skin_part_colors: [v[52], v[53], v[54], v[55], v[56], v[57]],
        };
        proof {
            assert(r.ints() =~= v@);
        }
        r
    }

    /// Reads the object's integers from `p`.
    pub fn decode_inner(p: &mut IntUnpacker) -> (r: Result<DeClientInfo, Error>)
        ensures
            decoded(
                DeClientInfo::bounds(),
                old(p)@,
                final(p)@,
                match r {
                    Ok(x) => Ok(x.ints()),
                    Err(e) => Err(e),
                },
            ),
    {
        let bounds: [(i32, i32); 58] = [(0i32, 1i32), (-1i32, 1i32), (i32::MIN, i32::MAX), (i32::MIN, i32::MAX), (i32::MIN, i32::MAX), (i32::MIN, i32::MAX), (i32::MIN, i32::MAX), (i32::MIN, i32::MAX), (i32::MIN, i32::MAX), (i32::MIN, i32::MAX), (i32::MIN, i32::MAX), (i32::MIN, i32::MAX), (i32::MIN, i32::MAX), (i32::MIN, i32::MAX), (i32::MIN, i32::MAX), (i32::MIN, i32::MAX), (i32::MIN, i32::MAX), (i32::MIN, i32::MAX), (i32::MIN, i32::MAX), (i32::MIN, i32::MAX), (i32::MIN, i32::MAX), (i32::MIN, i32::MAX), (i32::MIN, i32::MAX), (i32::MIN, i32::MAX), (i32::MIN, i32::MAX), (i32::MIN, i32::MAX), (i32::MIN, i32::MAX), (i32::MIN, i32::MAX), (i32::MIN, i32::MAX), (i32::MIN, i32::MAX), (i32::MIN, i32::MAX), (i32::MIN, i32::MAX), (i32::MIN, i32::MAX), (i32::MIN, i32::MAX), (i32::MIN, i32::MAX), (i32::MIN, i32::MAX), (i32::MIN, i32::MAX), (i32::MIN, i32::MAX), (i32::MIN, i32::MAX), (i32::MIN, i32::MAX), (i32::MIN, i32::MAX), (i32::MIN, i32::MAX), (i32::MIN, i32::MAX), (i32::MIN, i32::MAX), (i32::MIN, i32::MAX), (i32::MIN, i32::MAX), (0i32, 1i32), (0i32, 1i32), (0i32, 1i32), (0i32, 1i32), (0i32, 1i32), (0i32, 1i32), (i32::MIN, i32::MAX), (i32::MIN, i32::MAX), (i32::MIN, i32::MAX), (i32::MIN, i32::MAX), (i32::MIN, i32::MAX), (i32::MIN, i32::MAX)];
        proof {
            assert(bounds@ =~= DeClientInfo::bounds());
        }
        match read_int_fields(p, &bounds) {
            Ok(v) => Ok(DeClientInfo::from_ints(v.as_slice())),
            Err(e) => Err(e),
        }
    }

    /// Reads the object from `p`, warning about integers left over.
    pub fn decode(warns: &mut Vec<ExcessData>, p: &mut IntUnpacker) -> (r: Result<DeClientInfo, Error>)
        ensures
            decoded_all(
                DeClientInfo::bounds(),
                old(p)@,
                final(p)@,
                match r {
                    Ok(x) => Ok(x.ints()),
                    Err(e) => Err(e),
                },
                old(warns)@,
                final(warns)@,
            ),
    {
        let result = match DeClientInfo::decode_inner(p) {
            Ok(x) => x,
            Err(e) => return Err(e),
        };
        p.finish(warns);
        Ok(result)
    }

    /// The integers the object is sent as.
    #[verifier::spinoff_prover]
    #[verifier::rlimit(100)]
    pub fn encode(&self) -> (r: Vec<i32>)
        ensures
            r@ == self.ints(),
    {
        let mut v: Vec<i32> = Vec::new();
        let ghost mut acc: Seq<i32> = Seq::empty();
        v.push(if self.local { 1 } else { 0 });
        proof {
            acc = acc + seq![bool_int(self.local)];
            assert(v@ =~= acc);
        }
        v.push(self.team.to_i32());
        proof {
            acc = acc + seq![self.team.value()];
            assert(v@ =~= acc);
        }
        extend_ints(&mut v, &self.name);
        proof {
            acc = acc + self.name@;
        }
        extend_ints(&mut v, &self.clan);
        proof {
            acc = acc + self.clan@;
        }
        v.push(self.country);
        proof {
            acc = acc + seq![self.country];
            assert(v@ =~= acc);
        }
        extend_ints(&mut v, &self.skin_part_names[0]);
        proof {
            acc = acc + self.skin_part_names[0]@;
        }
        extend_ints(&mut v, &self.skin_part_names[1]);
        proof {
            acc = acc + self.skin_part_names[1]@;
        }
        extend_ints(&mut v, &self.skin_part_names[2]);
        proof {
            acc = acc + self.skin_part_names[2]@;
        }
        extend_ints(&mut v, &self.skin_part_names[3]);
        proof {
            acc = acc + self.skin_part_names[3]@;
        }
        extend_ints(&mut v, &self.skin_part_names[4]);
        proof {
            acc = acc + self.skin_part_names[4]@;
        }
        extend_ints(&mut v, &self.skin_part_names[5]);
        proof {
            acc = acc + self.skin_part_names[5]@;
        }
        v.push(if self.use_custom_colors[0] { 1 } else { 0 });
        v.push(if self.use_custom_colors[1] { 1 } else { 0 });
        v.push(if self.use_custom_colors[2] { 1 } else { 0 });
        v.push(if self.use_custom_colors[3] { 1 } else { 0 });
        v.push(if self.use_custom_colors[4] { 1 } else { 0 });
        v.push(if self.use_custom_colors[5] { 1 } else { 0 });
        proof {
            acc = acc + seq![bool_int(self.use_custom_colors[0]), bool_int(self.use_custom_colors[1]), bool_int(self.use_custom_colors[2]), bool_int(self.use_custom_colors[3]), bool_int(self.use_custom_colors[4]), bool_int(self.use_custom_colors[5])];
            assert(v@ =~= acc);
        }
        extend_ints(&mut v, &self.skin_part_colors);
        proof {
            acc = acc + self.skin_part_colors@;
        }
        proof {
            assert(v@ =~= self.ints());
        }
        v
    }
}

/// Decoding the integers of a valid `DeClientInfo`, followed by anything, gives it
/// back: they are in bounds, and no other `DeClientInfo` has the same integers.
#[verifier::spinoff_prover]
#[verifier::rlimit(100)]
pub proof fn lemma_de_client_info_roundtrip(x: DeClientInfo, y: DeClientInfo, rest: Seq<i32>)
    requires
        x.valid(),
    ensures
        fits(DeClientInfo::bounds(), x.ints()),
        decode_error(DeClientInfo::bounds(), x.ints() + rest) is None,
        (x.ints() + rest).subrange(0, 58) == x.ints(),
        y.ints() == x.ints() ==> y == x,
{
    assert forall|i: int| 0 <= i < 58 implies #[trigger] crate::gamenet::in_bounds(DeClientInfo::bounds()[i], x.ints()[i]) by {
        enums::lemma_team_values(x.team, 0);
    }
    lemma_decode_fits(DeClientInfo::bounds(), x.ints(), rest);
    if y.ints() == x.ints() {
        assert forall|i: int| 0 <= i < 58 implies y.ints()[i] == x.ints()[i] by {}
        assert(y.ints()[0] == x.ints()[0]);
        assert(y.ints()[1] == x.ints()[1]);
        enums::lemma_team_values(x.team, 0);
        enums::lemma_team_values(y.team, 0);
        assert(y.name =~= x.name) by {
            assert(y.ints()[2] == x.ints()[2]);
            assert(y.ints()[3] == x.ints()[3]);
            assert(y.ints()[4] == x.ints()[4]);
            assert(y.ints()[5] == x.ints()[5]);
        }
        assert(y.clan =~= x.clan) by {
            assert(y.ints()[6] == x.ints()[6]);
            assert(y.ints()[7] == x.ints()[7]);
            assert(y.ints()[8] == x.ints()[8]);
        }
        assert(y.ints()[9] == x.ints()[9]);
        assert(y.skin_part_names[0] =~= x.skin_part_names[0]) by {
            assert(y.ints()[10] == x.ints()[10]);
            assert(y.ints()[11] == x.ints()[11]);
            assert(y.ints()[12] == x.ints()[12]);
            assert(y.ints()[13] == x.ints()[13]);
            assert(y.ints()[14] == x.ints()[14]);
            assert(y.ints()[15] == x.ints()[15]);
        }
        assert(y.skin_part_names[1] =~= x.skin_part_names[1]) by {
            assert(y.ints()[16] == x.ints()[16]);
            assert(y.ints()[17] == x.ints()[17]);
            assert(y.ints()[18] == x.ints()[18]);
            assert(y.ints()[19] == x.ints()[19]);
            assert(y.ints()[20] == x.ints()[20]);
            assert(y.ints()[21] == x.ints()[21]);
        }
        assert(y.skin_part_names[2] =~= x.skin_part_names[2]) by {
            assert(y.ints()[22] == x.ints()[22]);
            assert(y.ints()[23] == x.ints()[23]);
            assert(y.ints()[24] == x.ints()[24]);
            assert(y.ints()[25] == x.ints()[25]);
            assert(y.ints()[26] == x.ints()[26]);
            assert(y.ints()[27] == x.ints()[27]);
        }
        assert(y.skin_part_names[3] =~= x.skin_part_names[3]) by {
            assert(y.ints()[28] == x.ints()[28]);
            assert(y.ints()[29] == x.ints()[29]);
            assert(y.ints()[30] == x.ints()[30]);
            assert(y.ints()[31] == x.ints()[31]);
            assert(y.ints()[32] == x.ints()[32]);
            assert(y.ints()[33] == x.ints()[33]);
        }
        assert(y.skin_part_names[4] =~= x.skin_part_names[4]) by {
            assert(y.ints()[34] == x.ints()[34]);
            assert(y.ints()[35] == x.ints()[35]);
            assert(y.ints()[36] == x.ints()[36]);
            assert(y.ints()[37] == x.ints()[37]);
            assert(y.ints()[38] == x.ints()[38]);
            assert(y.ints()[39] == x.ints()[39]);
        }
        assert(y.skin_part_names[5] =~= x.skin_part_names[5]) by {
            assert(y.ints()[40] == x.ints()[40]);
            assert(y.ints()[41] == x.ints()[41]);
            assert(y.ints()[42] == x.ints()[42]);
            assert(y.ints()[43] == x.ints()[43]);
            assert(y.ints()[44] == x.ints()[44]);
            assert(y.ints()[45] == x.ints()[45]);
        }
        assert(y.skin_part_names =~= x.skin_part_names);
        assert(y.use_custom_colors =~= x.use_custom_colors) by {
            assert(y.ints()[46] == x.ints()[46]);
            assert(y.ints()[47] == x.ints()[47]);
            assert(y.ints()[48] == x.ints()[48]);
            assert(y.ints()[49] == x.ints()[49]);
            assert(y.ints()[50] == x.ints()[50]);
            assert(y.ints()[51] == x.ints()[51]);
        }
        assert(y.skin_part_colors =~= x.skin_part_colors) by {
            assert(y.ints()[52] == x.ints()[52]);
            assert(y.ints()[53] == x.ints()[53]);
            assert(y.ints()[54] == x.ints()[54]);
            assert(y.ints()[55] == x.ints()[55]);
            assert(y.ints()[56] == x.ints()[56]);
            assert(y.ints()[57] == x.ints()[57]);
        }
    }
}

impl DeGameInfo {
    /// The integers the object is sent as.
    pub open spec fn ints(self) -> Seq<i32> {
        seq![self.game_flags, self.score_limit, self.time_limit, self.match_num, self.match_current]
    }

    /// The bounds of each of the integers.
    pub open spec fn bounds() -> Seq<(i32, i32)> {
        seq![(i32::MIN, i32::MAX), (0i32, i32::MAX), (0i32, i32::MAX), (0i32, i32::MAX), (0i32, i32::MAX)]
    }

    /// The fields lie in their ranges.
    pub open spec fn valid(self) -> bool {
        &&& 0 <= self.score_limit
        &&& 0 <= self.time_limit
        &&& 0 <= self.match_num
        &&& 0 <= self.match_current
    }

    pub(crate) fn from_ints(v: &[i32]) -> (r: DeGameInfo)
        requires
            fits(DeGameInfo::bounds(), v@),
        ensures
            r.ints() == v@,
    {
        proof {
            assert forall|i: int| 0 <= i < 5 implies crate::gamenet::in_bounds(DeGameInfo::bounds()[i], v@[i]) by {
                assert(crate::gamenet::in_bounds(DeGameInfo::bounds()[i], v@[i]));
            }
        }
        let r = DeGameInfo {
            game_flags: v[0],
            score_limit: v[1],
            time_limit: v[2],
            match_num: v[3],
            match_current: v[4],
        };
        proof {
            assert(r.ints() =~= v@);
        }
        r
    }

    /// Reads the object's integers from `p`.
    pub fn decode_inner(p: &mut IntUnpacker) -> (r: Result<DeGameInfo, Error>)
        ensures
            decoded(
                DeGameInfo::bounds(),
                old(p)@,
                final(p)@,
                match r {
                    Ok(x) => Ok(x.ints()),
                    Err(e) => Err(e),
                },
            ),
    {
        let bounds: [(i32, i32); 5] = [(i32::MIN, i32::MAX), (0i32, i32::MAX), (0i32, i32::MAX), (0i32, i32::MAX), (0i32, i32::MAX)];
        proof {
            assert(bounds@ =~= DeGameInfo::bounds());
        }
        match read_int_fields(p, &bounds) {
            Ok(v) => Ok(DeGameInfo::from_ints(v.as_slice())),
            Err(e) => Err(e),
        }
    }

    /// Reads the object from `p`, warning about integers left over.
    pub fn decode(warns: &mut Vec<ExcessData>, p: &mut IntUnpacker) -> (r: Result<DeGameInfo, Error>)
        ensures
            decoded_all(
                DeGameInfo::bounds(),
                old(p)@,
                final(p)@,
                match r {
                    Ok(x) => Ok(x.ints()),
                    Err(e) => Err(e),
                },
                old(warns)@,
                final(warns)@,
            ),
    {
        let result = match DeGameInfo::decode_inner(p) {
            Ok(x) => x,
            Err(e) => return Err(e),
        };
        p.finish(warns);
        Ok(result)
    }

    /// The integers the object is sent as.
    pub fn encode(&self) -> (r: Vec<i32>)
        requires
            self.valid(),
        ensures
            r@ == self.ints(),
    {
        let mut v: Vec<i32> = Vec::new();
        v.push(self.game_flags);
        v.push(self.score_limit);
        v.push(self.time_limit);
        v.push(self.match_num);
        v.push(self.match_current);
        proof {
            assert(v@ =~= self.ints());
        }
        v
    }
}

/// Decoding the integers of a valid `DeGameInfo`, followed by anything, gives it
/// back: they are in bounds, and no other `DeGameInfo` has the same integers.
pub proof fn lemma_de_game_info_roundtrip(x: DeGameInfo, y: DeGameInfo, rest: Seq<i32>)
    requires
        x.valid(),
    ensures
        fits(DeGameInfo::bounds(), x.ints()),
        decode_error(DeGameInfo::bounds(), x.ints() + rest) is None,
        (x.ints() + rest).subrange(0, 5) == x.ints(),
        y.ints() == x.ints() ==> y == x,
{
    assert forall|i: int| 0 <= i < 5 implies #[trigger] crate::gamenet::in_bounds(DeGameInfo::bounds()[i], x.ints()[i]) by {
    }
    lemma_decode_fits(DeGameInfo::bounds(), x.ints(), rest);
    if y.ints() == x.ints() {
        assert forall|i: int| 0 <= i < 5 implies y.ints()[i] == x.ints()[i] by {}
        assert(y.ints()[0] == x.ints()[0]);
        assert(y.ints()[1] == x.ints()[1]);
        assert(y.ints()[2] == x.ints()[2]);
        assert(y.ints()[3] == x.ints()[3]);
        assert(y.ints()[4] == x.ints()[4]);
    }
}

impl DeTuneParams {
    /// The integers the object is sent as.
    pub open spec fn ints(self) -> Seq<i32> {
        self.tune_params@
    }

    /// The bounds of each of the integers.
    pub open spec fn bounds() -> Seq<(i32, i32)> {
        seq![(i32::MIN, i32::MAX), (i32::MIN, i32::MAX), (i32::MIN, i32::MAX), (i32::MIN, i32::MAX), (i32::MIN, i32::MAX), (i32::MIN, i32::MAX), (i32::MIN, i32::MAX), (i32::MIN, i32::MAX), (i32::MIN, i32::MAX), (i32::MIN, i32::MAX), (i32::MIN, i32::MAX), (i32::MIN, i32::MAX), (i32::MIN, i32::MAX), (i32::MIN, i32::MAX), (i32::MIN, i32::MAX), (i32::MIN, i32::MAX), (i32::MIN, i32::MAX), (i32::MIN, i32::MAX), (i32::MIN, i32::MAX), (i32::MIN, i32::MAX), (i32::MIN, i32::MAX), (i32::MIN, i32::MAX), (i32::MIN, i32::MAX), (i32::MIN, i32::MAX), (i32::MIN, i32::MAX), (i32::MIN, i32::MAX), (i32::MIN, i32::MAX), (i32::MIN, i32::MAX), (i32::MIN, i32::MAX), (i32::MIN, i32::MAX), (i32::MIN, i32::MAX), (i32::MIN, i32::MAX)]
    }

    /// The fields lie in their ranges.
    pub open spec fn valid(self) -> bool {
        true
    }

    pub(crate) fn from_ints(v: &[i32]) -> (r: DeTuneParams)
        requires
            fits(DeTuneParams::bounds(), v@),
        ensures
            r.ints() == v@,
    {
        proof {
            assert forall|i: int| 0 <= i < 32 implies crate::gamenet::in_bounds(DeTuneParams::bounds()[i], v@[i]) by {
                assert(crate::gamenet::in_bounds(DeTuneParams::bounds()[i], v@[i]));
            }
        }
        let r = DeTuneParams {
            tune_params: [v[0], v[1], v[2], v[3], v[4], v[5], v[6], v[7], v[8], v[9], v[10], v[11], v[12], v[13], v[14], v[15], v[16], v[17], v[18], v[19], v[20], v[21], v[22], v[23], v[24], v[25], v[26], v[27], v[28], v[29], v[30], v[31]],
        };
        proof {
            assert(r.ints() =~= v@);
        }
        r
    }

    /// Reads the object's integers from `p`.
    pub fn decode_inner(p: &mut IntUnpacker) -> (r: Result<DeTuneParams, Error>)
        ensures
            decoded(
                DeTuneParams::bounds(),
                old(p)@,
                final(p)@,
                match r {
                    Ok(x) => Ok(x.ints()),
                    Err(e) => Err(e),
                },
            ),
    {
        let bounds: [(i32, i32); 32] = [(i32::MIN, i32::MAX), (i32::MIN, i32::MAX), (i32::MIN, i32::MAX), (i32::MIN, i32::MAX), (i32::MIN, i32::MAX), (i32::MIN, i32::MAX), (i32::MIN, i32::MAX), (i32::MIN, i32::MAX), (i32::MIN, i32::MAX), (i32::MIN, i32::MAX), (i32::MIN, i32::MAX), (i32::MIN, i32::MAX), (i32::MIN, i32::MAX), (i32::MIN, i32::MAX), (i32::MIN, i32::MAX), (i32::MIN, i32::MAX), (i32::MIN, i32::MAX), (i32::MIN, i32::MAX), (i32::MIN, i32::MAX), (i32::MIN, i32::MAX), (i32::MIN, i32::MAX), (i32::MIN, i32::MAX), (i32::MIN, i32::MAX), (i32::MIN, i32::MAX), (i32::MIN, i32::MAX), (i32::MIN, i32::MAX), (i32::MIN, i32::MAX), (i32::MIN, i32::MAX), (i32::MIN, i32::MAX), (i32::MIN, i32::MAX), (i32::MIN, i32::MAX), (i32::MIN, i32::MAX)];
        proof {
            assert(bounds@ =~= DeTuneParams::bounds());
        }
        match read_int_fields(p, &bounds) {
            Ok(v) => Ok(DeTuneParams::from_ints(v.as_slice())),
            Err(e) => Err(e),
        }
    }

    /// Reads the object from `p`, warning about integers left over.
    pub fn decode(warns: &mut Vec<ExcessData>, p: &mut IntUnpacker) -> (r: Result<DeTuneParams, Error>)
        ensures
            decoded_all(
                DeTuneParams::bounds(),
                old(p)@,
                final(p)@,
                match r {
                    Ok(x) => Ok(x.ints()),
                    Err(e) => Err(e),
                },
                old(warns)@,
                final(warns)@,
            ),
    {
        let result = match DeTuneParams::decode_inner(p) {
            Ok(x) => x,
            Err(e) => return Err(e),
        };
        p.finish(warns);
        Ok(result)
    }

    /// The integers the object is sent as.
    #[verifier::spinoff_prover]
    #[verifier::rlimit(100)]
    pub fn encode(&self) -> (r: Vec<i32>)
        ensures
            r@ == self.ints(),
    {
        let mut v: Vec<i32> = Vec::new();
        let ghost mut acc: Seq<i32> = Seq::empty();
        extend_ints(&mut v, &self.tune_params);
        proof {
            acc = acc + self.tune_params@;
        }
        proof {
            assert(v@ =~= self.ints());
        }
        v
    }
}

/// Decoding the integers of a valid `DeTuneParams`, followed by anything, gives it
/// back: they are in bounds, and no other `DeTuneParams` has the same integers.
#[verifier::spinoff_prover]
#[verifier::rlimit(100)]
pub proof fn lemma_de_tune_params_roundtrip(x: DeTuneParams, y: DeTuneParams, rest: Seq<i32>)
    requires
        x.valid(),
    ensures
        fits(DeTuneParams::bounds(), x.ints()),
        decode_error(DeTuneParams::bounds(), x.ints() + rest) is None,
        (x.ints() + rest).subrange(0, 32) == x.ints(),
        y.ints() == x.ints() ==> y == x,
{
    assert forall|i: int| 0 <= i < 32 implies #[trigger] crate::gamenet::in_bounds(DeTuneParams::bounds()[i], x.ints()[i]) by {
    }
    lemma_decode_fits(DeTuneParams::bounds(), x.ints(), rest);
    if y.ints() == x.ints() {
        assert forall|i: int| 0 <= i < 32 implies y.ints()[i] == x.ints()[i] by {}
        assert(y.tune_params =~= x.tune_params) by {
            assert(y.ints()[0] == x.ints()[0]);
            assert(y.ints()[1] == x.ints()[1]);
            assert(y.ints()[2] == x.ints()[2]);
            assert(y.ints()[3] == x.ints()[3]);
            assert(y.ints()[4] == x.ints()[4]);
            assert(y.ints()[5] == x.ints()[5]);
            assert(y.ints()[6] == x.ints()[6]);
            assert(y.ints()[7] == x.ints()[7]);
            assert(y.ints()[8] == x.ints()[8]);
            assert(y.ints()[9] == x.ints()[9]);
            assert(y.ints()[10] == x.ints()[10]);
            assert(y.ints()[11] == x.ints()[11]);
            assert(y.ints()[12] == x.ints()[12]);
            assert(y.ints()[13] == x.ints()[13]);
            assert(y.ints()[14] == x.ints()[14]);
            assert(y.ints()[15] == x.ints()[15]);
            assert(y.ints()[16] == x.ints()[16]);
            assert(y.ints()[17] == x.ints()[17]);
            assert(y.ints()[18] == x.ints()[18]);
            assert(y.ints()[19] == x.ints()[19]);
            assert(y.ints()[20] == x.ints()[20]);
            assert(y.ints()[21] == x.ints()[21]);
            assert(y.ints()[22] == x.ints()[22]);
            assert(y.ints()[23] == x.ints()[23]);
            assert(y.ints()[24] == x.ints()[24]);
            assert(y.ints()[25] == x.ints()[25]);
            assert(y.ints()[26] == x.ints()[26]);
            assert(y.ints()[27] == x.ints()[27]);
            assert(y.ints()[28] == x.ints()[28]);
            assert(y.ints()[29] == x.ints()[29]);
            assert(y.ints()[30] == x.ints()[30]);
            assert(y.ints()[31] == x.ints()[31]);
        }
    }
}

impl Common {
    /// The integers the object is sent as.
    pub open spec fn ints(self) -> Seq<i32> {
        seq![self.x, self.y]
    }

    /// The bounds of each of the integers.
    pub open spec fn bounds() -> Seq<(i32, i32)> {
        seq![(i32::MIN, i32::MAX), (i32::MIN, i32::MAX)]
    }

    /// The fields lie in their ranges.
    pub open spec fn valid(self) -> bool {
        true
    }

    pub(crate) fn from_ints(v: &[i32]) -> (r: Common)
        requires
            fits(Common::bounds(), v@),
        ensures
            r.ints() == v@,
    {
        proof {
            assert forall|i: int| 0 <= i < 2 implies crate::gamenet::in_bounds(Common::bounds()[i], v@[i]) by {
                assert(crate::gamenet::in_bounds(Common::bounds()[i], v@[i]));
            }
        }
        let r = Common {
            x: v[0],
            y: v[1],
        };
        proof {
            assert(r.ints() =~= v@);
        }
        r
    }

    /// Reads the object's integers from `p`.
    pub fn decode_inner(p: &mut IntUnpacker) -> (r: Result<Common, Error>)
        ensures
            decoded(
                Common::bounds(),
                old(p)@,
                final(p)@,
                match r {
                    Ok(x) => Ok(x.ints()),
                    Err(e) => Err(e),
                },
            ),
    {
        let bounds: [(i32, i32); 2] = [(i32::MIN, i32::MAX), (i32::MIN, i32::MAX)];
        proof {
            assert(bounds@ =~= Common::bounds());
        }
        match read_int_fields(p, &bounds) {
            Ok(v) => Ok(Common::from_ints(v.as_slice())),
            Err(e) => Err(e),
        }
    }

    /// Reads the object from `p`, warning about integers left over.
    pub fn decode(warns: &mut Vec<ExcessData>, p: &mut IntUnpacker) -> (r: Result<Common, Error>)
        ensures
            decoded_all(
                Common::bounds(),
                old(p)@,
                final(p)@,
                match r {
                    Ok(x) => Ok(x.ints()),
                    Err(e) => Err(e),
                },
                old(warns)@,
                final(warns)@,
            ),
    {
        let result = match Common::decode_inner(p) {
            Ok(x) => x,
            Err(e) => return Err(e),
        };
        p.finish(warns);
        Ok(result)
    }

    /// The integers the object is sent as.
    pub fn encode(&self) -> (r: Vec<i32>)
        ensures
            r@ == self.ints(),
    {
        let mut v: Vec<i32> = Vec::new();
        v.push(self.x);
        v.push(self.y);
        proof {
            assert(v@ =~= self.ints());
        }
        v
    }
}

/// Decoding the integers of a valid `Common`, followed by anything, gives it
/// back: they are in bounds, and no other `Common` has the same integers.
pub proof fn lemma_common_roundtrip(x: Common, y: Common, rest: Seq<i32>)
    requires
        x.valid(),
    ensures
        fits(Common::bounds(), x.ints()),
        decode_error(Common::bounds(), x.ints() + rest) is None,
        (x.ints() + rest).subrange(0, 2) == x.ints(),
        y.ints() == x.ints() ==> y == x,
{
    assert forall|i: int| 0 <= i < 2 implies #[trigger] crate::gamenet::in_bounds(Common::bounds()[i], x.ints()[i]) by {
    }
    lemma_decode_fits(Common::bounds(), x.ints(), rest);
    if y.ints() == x.ints() {
        assert forall|i: int| 0 <= i < 2 implies y.ints()[i] == x.ints()[i] by {}
        assert(y.ints()[0] == x.ints()[0]);
        assert(y.ints()[1] == x.ints()[1]);
    }
}

impl Explosion {
    /// The integers the object is sent as.
    pub open spec fn ints(self) -> Seq<i32> {
        self.common.ints()
    }

    /// The bounds of each of the integers.
    pub open spec fn bounds() -> Seq<(i32, i32)> {
        Common::bounds()
    }

    /// The fields lie in their ranges.
    pub open spec fn valid(self) -> bool {
        &&& self.common.valid()
    }

    pub(crate) fn from_ints(v: &[i32]) -> (r: Explosion)
        requires
            fits(Explosion::bounds(), v@),
        ensures
            r.ints() == v@,
    {
        proof {
            assert forall|i: int| 0 <= i < 2 implies crate::gamenet::in_bounds(Explosion::bounds()[i], v@[i]) by {
                assert(crate::gamenet::in_bounds(Explosion::bounds()[i], v@[i]));
            }
        }
        proof {
            assert(Explosion::bounds() =~= Common::bounds() + Explosion::bounds().subrange(2, 2));
            lemma_fits_split(Common::bounds(), Explosion::bounds().subrange(2, 2), v@);
        }
        let common = Common::from_ints(ints_prefix(v, 2));
        let r = Explosion {
            common,
        };
        proof {
            assert(r.ints() =~= v@);
        }
        r
    }

    /// Reads the object's integers from `p`.
    pub fn decode_inner(p: &mut IntUnpacker) -> (r: Result<Explosion, Error>)
        ensures
            decoded(
                Explosion::bounds(),
                old(p)@,
                final(p)@,
                match r {
                    Ok(x) => Ok(x.ints()),
                    Err(e) => Err(e),
                },
            ),
    {
        let bounds: [(i32, i32); 2] = [(i32::MIN, i32::MAX), (i32::MIN, i32::MAX)];
        proof {
            assert(bounds@ =~= Explosion::bounds());
        }
        match read_int_fields(p, &bounds) {
            Ok(v) => Ok(Explosion::from_ints(v.as_slice())),
            Err(e) => Err(e),
        }
    }

    /// Reads the object from `p`, warning about integers left over.
    pub fn decode(warns: &mut Vec<ExcessData>, p: &mut IntUnpacker) -> (r: Result<Explosion, Error>)
        ensures
            decoded_all(
                Explosion::bounds(),
                old(p)@,
                final(p)@,
                match r {
                    Ok(x) => Ok(x.ints()),
                    Err(e) => Err(e),
                },
                old(warns)@,
                final(warns)@,
            ),
    {
        let result = match Explosion::decode_inner(p) {
            Ok(x) => x,
            Err(e) => return Err(e),
        };
        p.finish(warns);
        Ok(result)
    }

    /// The integers the object is sent as.
    pub fn encode(&self) -> (r: Vec<i32>)
        requires
            self.valid(),
        ensures
            r@ == self.ints(),
    {
        let mut v = self.common.encode();
        proof {
            assert(v@ =~= self.ints());
        }
        v
    }
}

/// Decoding the integers of a valid `Explosion`, followed by anything, gives it
/// back: they are in bounds, and no other `Explosion` has the same integers.
pub proof fn lemma_explosion_roundtrip(x: Explosion, y: Explosion, rest: Seq<i32>)
    requires
        x.valid(),
    ensures
        fits(Explosion::bounds(), x.ints()),
        decode_error(Explosion::bounds(), x.ints() + rest) is None,
        (x.ints() + rest).subrange(0, 2) == x.ints(),
        y.ints() == x.ints() ==> y == x,
{
    lemma_common_roundtrip(x.common, y.common, Seq::empty());
    assert forall|i: int| 0 <= i < 2 implies #[trigger] crate::gamenet::in_bounds(Explosion::bounds()[i], x.ints()[i]) by {
        lemma_decode_fits(Common::bounds(), x.common.ints(), Seq::empty());
        if i < 2 {
            assert(crate::gamenet::in_bounds(Common::bounds()[i], x.common.ints()[i]));
        }
    }
    lemma_decode_fits(Explosion::bounds(), x.ints(), rest);
    if y.ints() == x.ints() {
        assert forall|i: int| 0 <= i < 2 implies y.ints()[i] == x.ints()[i] by {}
        assert(y.common.ints() =~= x.common.ints()) by {
            assert forall|i: int| 0 <= i < 2 implies y.common.ints()[i] == x.common.ints()[i] by {
                assert(y.ints()[i] == x.ints()[i]);
            }
        }
    }
}

impl Spawn {
    /// The integers the object is sent as.
    pub open spec fn ints(self) -> Seq<i32> {
        self.common.ints()
    }

    /// The bounds of each of the integers.
    pub open spec fn bounds() -> Seq<(i32, i32)> {
        Common::bounds()
    }

    /// The fields lie in their ranges.
    pub open spec fn valid(self) -> bool {
        &&& self.common.valid()
    }

    pub(crate) fn from_ints(v: &[i32]) -> (r: Spawn)
        requires
            fits(Spawn::bounds(), v@),
        ensures
            r.ints() == v@,
    {
        proof {
            assert forall|i: int| 0 <= i < 2 implies crate::gamenet::in_bounds(Spawn::bounds()[i], v@[i]) by {
                assert(crate::gamenet::in_bounds(Spawn::bounds()[i], v@[i]));
            }
        }
        proof {
            assert(Spawn::bounds() =~= Common::bounds() + Spawn::bounds().subrange(2, 2));
            lemma_fits_split(Common::bounds(), Spawn::bounds().subrange(2, 2), v@);
        }
        let common = Common::from_ints(ints_prefix(v, 2));
        let r = Spawn {
            common,
        };
        proof {
            assert(r.ints() =~= v@);
        }
        r
    }

    /// Reads the object's integers from `p`.
    pub fn decode_inner(p: &mut IntUnpacker) -> (r: Result<Spawn, Error>)
        ensures
            decoded(
                Spawn::bounds(),
                old(p)@,
                final(p)@,
                match r {
                    Ok(x) => Ok(x.ints()),
                    Err(e) => Err(e),
                },
            ),
    {
        let bounds: [(i32, i32); 2] = [(i32::MIN, i32::MAX), (i32::MIN, i32::MAX)];
        proof {
            assert(bounds@ =~= Spawn::bounds());
        }
        match read_int_fields(p, &bounds) {
            Ok(v) => Ok(Spawn::from_ints(v.as_slice())),
            Err(e) => Err(e),
        }
    }

    /// Reads the object from `p`, warning about integers left over.
    pub fn decode(warns: &mut Vec<ExcessData>, p: &mut IntUnpacker) -> (r: Result<Spawn, Error>)
        ensures
            decoded_all(
                Spawn::bounds(),
                old(p)@,
                final(p)@,
                match r {
                    Ok(x) => Ok(x.ints()),
                    Err(e) => Err(e),
                },
                old(warns)@,
                final(warns)@,
            ),
    {
        let result = match Spawn::decode_inner(p) {
            Ok(x) => x,
            Err(e) => return Err(e),
        };
        p.finish(warns);
        Ok(result)
    }

    /// The integers the object is sent as.
    pub fn encode(&self) -> (r: Vec<i32>)
        requires
            self.valid(),
        ensures
            r@ == self.ints(),
    {
        let mut v = self.common.encode();
        proof {
            assert(v@ =~= self.ints());
        }
        v
    }
}

/// Decoding the integers of a valid `Spawn`, followed by anything, gives it
/// back: they are in bounds, and no other `Spawn` has the same integers.
pub proof fn lemma_spawn_roundtrip(x: Spawn, y: Spawn, rest: Seq<i32>)
    requires
        x.valid(),
    ensures
        fits(Spawn::bounds(), x.ints()),
        decode_error(Spawn::bounds(), x.ints() + rest) is None,
        (x.ints() + rest).subrange(0, 2) == x.ints(),
        y.ints() == x.ints() ==> y == x,
{
    lemma_common_roundtrip(x.common, y.common, Seq::empty());
    assert forall|i: int| 0 <= i < 2 implies #[trigger] crate::gamenet::in_bounds(Spawn::bounds()[i], x.ints()[i]) by {
        lemma_decode_fits(Common::bounds(), x.common.ints(), Seq::empty());
        if i < 2 {
            assert(crate::gamenet::in_bounds(Common::bounds()[i], x.common.ints()[i]));
        }
    }
    lemma_decode_fits(Spawn::bounds(), x.ints(), rest);
    if y.ints() == x.ints() {
        assert forall|i: int| 0 <= i < 2 implies y.ints()[i] == x.ints()[i] by {}
        assert(y.common.ints() =~= x.common.ints()) by {
            assert forall|i: int| 0 <= i < 2 implies y.common.ints()[i] == x.common.ints()[i] by {
                assert(y.ints()[i] == x.ints()[i]);
            }
        }
    }
}

impl HammerHit {
    /// The integers the object is sent as.
    pub open spec fn ints(self) -> Seq<i32> {
        self.common.ints()
    }

    /// The bounds of each of the integers.
    pub open spec fn bounds() -> Seq<(i32, i32)> {
        Common::bounds()
    }

    /// The fields lie in their ranges.
    pub open spec fn valid(self) -> bool {
        &&& self.common.valid()
    }

    pub(crate) fn from_ints(v: &[i32]) -> (r: HammerHit)
        requires
            fits(HammerHit::bounds(), v@),
        ensures
            r.ints() == v@,
    {
        proof {
            assert forall|i: int| 0 <= i < 2 implies crate::gamenet::in_bounds(HammerHit::bounds()[i], v@[i]) by {
                assert(crate::gamenet::in_bounds(HammerHit::bounds()[i], v@[i]));
            }
        }
        proof {
            assert(HammerHit::bounds() =~= Common::bounds() + HammerHit::bounds().subrange(2, 2));
            lemma_fits_split(Common::bounds(), HammerHit::bounds().subrange(2, 2), v@);
        }
        let common = Common::from_ints(ints_prefix(v, 2));
        let r = HammerHit {
            common,
        };
        proof {
            assert(r.ints() =~= v@);
        }
        r
    }

    /// Reads the object's integers from `p`.
    pub fn decode_inner(p: &mut IntUnpacker) -> (r: Result<HammerHit, Error>)
        ensures
            decoded(
                HammerHit::bounds(),
                old(p)@,
                final(p)@,
                match r {
                    Ok(x) => Ok(x.ints()),
                    Err(e) => Err(e),
                },
            ),
    {
        let bounds: [(i32, i32); 2] = [(i32::MIN, i32::MAX), (i32::MIN, i32::MAX)];
        proof {
            assert(bounds@ =~= HammerHit::bounds());
        }
        match read_int_fields(p, &bounds) {
            Ok(v) => Ok(HammerHit::from_ints(v.as_slice())),
            Err(e) => Err(e),
        }
    }

    /// Reads the object from `p`, warning about integers left over.
    pub fn decode(warns: &mut Vec<ExcessData>, p: &mut IntUnpacker) -> (r: Result<HammerHit, Error>)
        ensures
            decoded_all(
                HammerHit::bounds(),
                old(p)@,
                final(p)@,
                match r {
                    Ok(x) => Ok(x.ints()),
                    Err(e) => Err(e),
                },
                old(warns)@,
                final(warns)@,
            ),
    {
        let result = match HammerHit::decode_inner(p) {
            Ok(x) => x,
            Err(e) => return Err(e),
        };
        p.finish(warns);
        Ok(result)
    }

    /// The integers the object is sent as.
    pub fn encode(&self) -> (r: Vec<i32>)
        requires
            self.valid(),
        ensures
            r@ == self.ints(),
    {
        let mut v = self.common.encode();
        proof {
            assert(v@ =~= self.ints());
        }
        v
    }
}

/// Decoding the integers of a valid `HammerHit`, followed by anything, gives it
/// back: they are in bounds, and no other `HammerHit` has the same integers.
pub proof fn lemma_hammer_hit_roundtrip(x: HammerHit, y: HammerHit, rest: Seq<i32>)
    requires
        x.valid(),
    ensures
        fits(HammerHit::bounds(), x.ints()),
        decode_error(HammerHit::bounds(), x.ints() + rest) is None,
        (x.ints() + rest).subrange(0, 2) == x.ints(),
        y.ints() == x.ints() ==> y == x,
{
    lemma_common_roundtrip(x.common, y.common, Seq::empty());
    assert forall|i: int| 0 <= i < 2 implies #[trigger] crate::gamenet::in_bounds(HammerHit::bounds()[i], x.ints()[i]) by {
        lemma_decode_fits(Common::bounds(), x.common.ints(), Seq::empty());
        if i < 2 {
            assert(crate::gamenet::in_bounds(Common::bounds()[i], x.common.ints()[i]));
        }
    }
    lemma_decode_fits(HammerHit::bounds(), x.ints(), rest);
    if y.ints() == x.ints() {
        assert forall|i: int| 0 <= i < 2 implies y.ints()[i] == x.ints()[i] by {}
        assert(y.common.ints() =~= x.common.ints()) by {
            assert forall|i: int| 0 <= i < 2 implies y.common.ints()[i] == x.common.ints()[i] by {
                assert(y.ints()[i] == x.ints()[i]);
            }
        }
    }
}

impl Death {
    /// The integers the object is sent as.
    pub open spec fn ints(self) -> Seq<i32> {
        self.common.ints() + seq![self.client_id]
    }

    /// The bounds of each of the integers.
    pub open spec fn bounds() -> Seq<(i32, i32)> {
        Common::bounds() + seq![(0i32, 63i32)]
    }

    /// The fields lie in their ranges.
    pub open spec fn valid(self) -> bool {
        &&& self.common.valid()
        &&& 0 <= self.client_id && self.client_id <= 63
    }

    pub(crate) fn from_ints(v: &[i32]) -> (r: Death)
        requires
            fits(Death::bounds(), v@),
        ensures
            r.ints() == v@,
    {
        proof {
            assert forall|i: int| 0 <= i < 3 implies crate::gamenet::in_bounds(Death::bounds()[i], v@[i]) by {
                assert(crate::gamenet::in_bounds(Death::bounds()[i], v@[i]));
            }
        }
        proof {
            assert(Death::bounds() =~= Common::bounds() + Death::bounds().subrange(2, 3));
            lemma_fits_split(Common::bounds(), Death::bounds().subrange(2, 3), v@);
        }
        let common = Common::from_ints(ints_prefix(v, 2));
        let r = Death {
            common,
            client_id: v[2],
        };
        proof {
            assert(r.ints() =~= v@);
        }
        r
    }

    /// Reads the object's integers from `p`.
    pub fn decode_inner(p: &mut IntUnpacker) -> (r: Result<Death, Error>)
        ensures
            decoded(
                Death::bounds(),
                old(p)@,
                final(p)@,
                match r {
                    Ok(x) => Ok(x.ints()),
                    Err(e) => Err(e),
                },
            ),
    {
        let bounds: [(i32, i32); 3] = [(i32::MIN, i32::MAX), (i32::MIN, i32::MAX), (0i32, 63i32)];
        proof {
            assert(bounds@ =~= Death::bounds());
        }
        match read_int_fields(p, &bounds) {
            Ok(v) => Ok(Death::from_ints(v.as_slice())),
            Err(e) => Err(e),
        }
    }

    /// Reads the object from `p`, warning about integers left over.
    pub fn decode(warns: &mut Vec<ExcessData>, p: &mut IntUnpacker) -> (r: Result<Death, Error>)
        ensures
            decoded_all(
                Death::bounds(),
                old(p)@,
                final(p)@,
                match r {
                    Ok(x) => Ok(x.ints()),
                    Err(e) => Err(e),
                },
                old(warns)@,
                final(warns)@,
            ),
    {
        let result = match Death::decode_inner(p) {
            Ok(x) => x,
            Err(e) => return Err(e),
        };
        p.finish(warns);
        Ok(result)
    }

    /// The integers the object is sent as.
    pub fn encode(&self) -> (r: Vec<i32>)
        requires
            self.valid(),
        ensures
            r@ == self.ints(),
    {
        let mut v = self.common.encode();
        v.push(self.client_id);
        proof {
            assert(v@ =~= self.ints());
        }
        v
    }
}

/// Decoding the integers of a valid `Death`, followed by anything, gives it
/// back: they are in bounds, and no other `Death` has the same integers.
pub proof fn lemma_death_roundtrip(x: Death, y: Death, rest: Seq<i32>)
    requires
        x.valid(),
    ensures
        fits(Death::bounds(), x.ints()),
        decode_error(Death::bounds(), x.ints() + rest) is None,
        (x.ints() + rest).subrange(0, 3) == x.ints(),
        y.ints() == x.ints() ==> y == x,
{
    lemma_common_roundtrip(x.common, y.common, Seq::empty());
    assert forall|i: int| 0 <= i < 3 implies #[trigger] crate::gamenet::in_bounds(Death::bounds()[i], x.ints()[i]) by {
        lemma_decode_fits(Common::bounds(), x.common.ints(), Seq::empty());
        if i < 2 {
            assert(crate::gamenet::in_bounds(Common::bounds()[i], x.common.ints()[i]));
        }
    }
    lemma_decode_fits(Death::bounds(), x.ints(), rest);
    if y.ints() == x.ints() {
        assert forall|i: int| 0 <= i < 3 implies y.ints()[i] == x.ints()[i] by {}
        assert(y.common.ints() =~= x.common.ints()) by {
            assert forall|i: int| 0 <= i < 2 implies y.common.ints()[i] == x.common.ints()[i] by {
                assert(y.ints()[i] == x.ints()[i]);
            }
        }
        assert(y.ints()[2] == x.ints()[2]);
    }
}

impl SoundWorld {
    /// The integers the object is sent as.
    pub open spec fn ints(self) -> Seq<i32> {
        self.common.ints() + seq![self.sound_id.value()]
    }

    /// The bounds of each of the integers.
    pub open spec fn bounds() -> Seq<(i32, i32)> {
        Common::bounds() + seq![(0i32, 40i32)]
    }

    /// The fields lie in their ranges.
    pub open spec fn valid(self) -> bool {
        &&& self.common.valid()
    }

    pub(crate) fn from_ints(v: &[i32]) -> (r: SoundWorld)
        requires
            fits(SoundWorld::bounds(), v@),
        ensures
            r.ints() == v@,
    {
        proof {
            assert forall|i: int| 0 <= i < 3 implies crate::gamenet::in_bounds(SoundWorld::bounds()[i], v@[i]) by {
                assert(crate::gamenet::in_bounds(SoundWorld::bounds()[i], v@[i]));
            }
        }
        proof {
            assert(SoundWorld::bounds() =~= Common::bounds() + SoundWorld::bounds().subrange(2, 3));
            lemma_fits_split(Common::bounds(), SoundWorld::bounds().subrange(2, 3), v@);
        }
        let common = Common::from_ints(ints_prefix(v, 2));
        proof {
            assert(crate::gamenet::in_bounds(SoundWorld::bounds()[2], v@[2]));
        }
        let sound_id = match enums::Sound::from_i32(v[2]) {
            Ok(e) => e,
            Err(_) => {
                proof {
                    assert(false);
                }
                enums::Sound::GunFire
            },
        };
        proof {
            enums::lemma_sound_values(sound_id, v[2]);
        }
        let r = SoundWorld {
            common,
            sound_id,
        };
        proof {
            assert(r.ints() =~= v@);
        }
        r
    }

    /// Reads the object's integers from `p`.
    pub fn decode_inner(p: &mut IntUnpacker) -> (r: Result<SoundWorld, Error>)
        ensures
            decoded(
                SoundWorld::bounds(),
                old(p)@,
                final(p)@,
                match r {
                    Ok(x) => Ok(x.ints()),
                    Err(e) => Err(e),
                },
            ),
    {
        let bounds: [(i32, i32); 3] = [(i32::MIN, i32::MAX), (i32::MIN, i32::MAX), (0i32, 40i32)];
        proof {
            assert(bounds@ =~= SoundWorld::bounds());
        }
        match read_int_fields(p, &bounds) {
            Ok(v) => Ok(SoundWorld::from_ints(v.as_slice())),
            Err(e) => Err(e),
        }
    }

    /// Reads the object from `p`, warning about integers left over.
    pub fn decode(warns: &mut Vec<ExcessData>, p: &mut IntUnpacker) -> (r: Result<SoundWorld, Error>)
        ensures
            decoded_all(
                SoundWorld::bounds(),
                old(p)@,
                final(p)@,
                match r {
                    Ok(x) => Ok(x.ints()),
                    Err(e) => Err(e),
                },
                old(warns)@,
                final(warns)@,
            ),
    {
        let result = match SoundWorld::decode_inner(p) {
            Ok(x) => x,
            Err(e) => return Err(e),
        };
        p.finish(warns);
        Ok(result)
    }

    /// The integers the object is sent as.
    pub fn encode(&self) -> (r: Vec<i32>)
        requires
            self.valid(),
        ensures
            r@ == self.ints(),
    {
        let mut v = self.common.encode();
        v.push(self.sound_id.to_i32());
        proof {
            assert(v@ =~= self.ints());
        }
        v
    }
}

/// Decoding the integers of a valid `SoundWorld`, followed by anything, gives it
/// back: they are in bounds, and no other `SoundWorld` has the same integers.
pub proof fn lemma_sound_world_roundtrip(x: SoundWorld, y: SoundWorld, rest: Seq<i32>)
    requires
        x.valid(),
    ensures
        fits(SoundWorld::bounds(), x.ints()),
        decode_error(SoundWorld::bounds(), x.ints() + rest) is None,
        (x.ints() + rest).subrange(0, 3) == x.ints(),
        y.ints() == x.ints() ==> y == x,
{
    lemma_common_roundtrip(x.common, y.common, Seq::empty());
    assert forall|i: int| 0 <= i < 3 implies #[trigger] crate::gamenet::in_bounds(SoundWorld::bounds()[i], x.ints()[i]) by {
        lemma_decode_fits(Common::bounds(), x.common.ints(), Seq::empty());
        if i < 2 {
            assert(crate::gamenet::in_bounds(Common::bounds()[i], x.common.ints()[i]));
        }
        enums::lemma_sound_values(x.sound_id, 0);
    }
    lemma_decode_fits(SoundWorld::bounds(), x.ints(), rest);
    if y.ints() == x.ints() {
        assert forall|i: int| 0 <= i < 3 implies y.ints()[i] == x.ints()[i] by {}
        assert(y.common.ints() =~= x.common.ints()) by {
            assert forall|i: int| 0 <= i < 2 implies y.common.ints()[i] == x.common.ints()[i] by {
                assert(y.ints()[i] == x.ints()[i]);
            }
        }
        assert(y.ints()[2] == x.ints()[2]);
        enums::lemma_sound_values(x.sound_id, 0);
        enums::lemma_sound_values(y.sound_id, 0);
    }
}

impl Damage {
    /// The integers the object is sent as.
    pub open spec fn ints(self) -> Seq<i32> {
        self.common.ints() + seq![self.client_id, self.angle, self.health_amount, self.armor_amount, bool_int(self.self_)]
    }

    /// The bounds of each of the integers.
    pub open spec fn bounds() -> Seq<(i32, i32)> {
        Common::bounds() + seq![(0i32, 63i32), (i32::MIN, i32::MAX), (0i32, 9i32), (0i32, 9i32), (0i32, 1i32)]
    }

    /// The fields lie in their ranges.
    pub open spec fn valid(self) -> bool {
        &&& self.common.valid()
        &&& 0 <= self.client_id && self.client_id <= 63
        &&& 0 <= self.health_amount && self.health_amount <= 9
        &&& 0 <= self.armor_amount && self.armor_amount <= 9
    }

    pub(crate) fn from_ints(v: &[i32]) -> (r: Damage)
        requires
            fits(Damage::bounds(), v@),
        ensures
            r.ints() == v@,
    {
        proof {
            assert forall|i: int| 0 <= i < 7 implies crate::gamenet::in_bounds(Damage::bounds()[i], v@[i]) by {
                assert(crate::gamenet::in_bounds(Damage::bounds()[i], v@[i]));
            }
        }
        proof {
            assert(Damage::bounds() =~= Common::bounds() + Damage::bounds().subrange(2, 7));
            lemma_fits_split(Common::bounds(), Damage::bounds().subrange(2, 7), v@);
        }
        let common = Common::from_ints(ints_prefix(v, 2));
        let r = Damage {
            common,
            client_id: v[2],
            angle: v[3],
            health_amount: v[4],
            armor_amount: v[5],
            self_: v[6] != 0,
        };
        proof {
            assert(r.ints() =~= v@);
        }
        r
    }

    /// Reads the object's integers from `p`.
    pub fn decode_inner(p: &mut IntUnpacker) -> (r: Result<Damage, Error>)
        ensures
            decoded(
                Damage::bounds(),
                old(p)@,
                final(p)@,
                match r {
                    Ok(x) => Ok(x.ints()),
                    Err(e) => Err(e),
                },
            ),
    {
        let bounds: [(i32, i32); 7] = [(i32::MIN, i32::MAX), (i32::MIN, i32::MAX), (0i32, 63i32), (i32::MIN, i32::MAX), (0i32, 9i32), (0i32, 9i32), (0i32, 1i32)];
        proof {
            assert(bounds@ =~= Damage::bounds());
        }
        match read_int_fields(p, &bounds) {
            Ok(v) => Ok(Damage::from_ints(v.as_slice())),
            Err(e) => Err(e),
        }
    }

    /// Reads the object from `p`, warning about integers left over.
    pub fn decode(warns: &mut Vec<ExcessData>, p: &mut IntUnpacker) -> (r: Result<Damage, Error>)
        ensures
            decoded_all(
                Damage::bounds(),
                old(p)@,
                final(p)@,
                match r {
                    Ok(x) => Ok(x.ints()),
                    Err(e) => Err(e),
                },
                old(warns)@,
                final(warns)@,
            ),
    {
        let result = match Damage::decode_inner(p) {
            Ok(x) => x,
            Err(e) => return Err(e),
        };
        p.finish(warns);
        Ok(result)
    }

    /// The integers the object is sent as.
    pub fn encode(&self) -> (r: Vec<i32>)
        requires
            self.valid(),
        ensures
            r@ == self.ints(),
    {
        let mut v = self.common.encode();
        v.push(self.client_id);
        v.push(self.angle);
        v.push(self.health_amount);
        v.push(self.armor_amount);
        v.push(if self.self_ { 1 } else { 0 });
        proof {
            assert(v@ =~= self.ints());
        }
        v
    }
}

/// Decoding the integers of a valid `Damage`, followed by anything, gives it
/// back: they are in bounds, and no other `Damage` has the same integers.
pub proof fn lemma_damage_roundtrip(x: Damage, y: Damage, rest: Seq<i32>)
    requires
        x.valid(),
    ensures
        fits(Damage::bounds(), x.ints()),
        decode_error(Damage::bounds(), x.ints() + rest) is None,
        (x.ints() + rest).subrange(0, 7) == x.ints(),
        y.ints() == x.ints() ==> y == x,
{
    lemma_common_roundtrip(x.common, y.common, Seq::empty());
    assert forall|i: int| 0 <= i < 7 implies #[trigger] crate::gamenet::in_bounds(Damage::bounds()[i], x.ints()[i]) by {
        lemma_decode_fits(Common::bounds(), x.common.ints(), Seq::empty());
        if i < 2 {
            assert(crate::gamenet::in_bounds(Common::bounds()[i], x.common.ints()[i]));
        }
    }
    lemma_decode_fits(Damage::bounds(), x.ints(), rest);
    if y.ints() == x.ints() {
        assert forall|i: int| 0 <= i < 7 implies y.ints()[i] == x.ints()[i] by {}
        assert(y.common.ints() =~= x.common.ints()) by {
            assert forall|i: int| 0 <= i < 2 implies y.common.ints()[i] == x.common.ints()[i] by {
                assert(y.ints()[i] == x.ints()[i]);
            }
        }
        assert(y.ints()[2] == x.ints()[2]);
        assert(y.ints()[3] == x.ints()[3]);
        assert(y.ints()[4] == x.ints()[4]);
        assert(y.ints()[5] == x.ints()[5]);
        assert(y.ints()[6] == x.ints()[6]);
    }
}

impl PlayerInfoRace {
    /// The integers the object is sent as.
    pub open spec fn ints(self) -> Seq<i32> {
        seq![self.race_start_tick.0]
    }

    /// The bounds of each of the integers.
    pub open spec fn bounds() -> Seq<(i32, i32)> {
        seq![(i32::MIN, i32::MAX)]
    }

    /// The fields lie in their ranges.
    pub open spec fn valid(self) -> bool {
        true
    }

    pub(crate) fn from_ints(v: &[i32]) -> (r: PlayerInfoRace)
        requires
            fits(PlayerInfoRace::bounds(), v@),
        ensures
            r.ints() == v@,
    {
        proof {
            assert forall|i: int| 0 <= i < 1 implies crate::gamenet::in_bounds(PlayerInfoRace::bounds()[i], v@[i]) by {
                assert(crate::gamenet::in_bounds(PlayerInfoRace::bounds()[i], v@[i]));
            }
        }
        let r = PlayerInfoRace {
            race_start_tick: Tick(v[0]),
        };
        proof {
            assert(r.ints() =~= v@);
        }
        r
    }

    /// Reads the object's integers from `p`.
    pub fn decode_inner(p: &mut IntUnpacker) -> (r: Result<PlayerInfoRace, Error>)
        ensures
            decoded(
                PlayerInfoRace::bounds(),
                old(p)@,
                final(p)@,
                match r {
                    Ok(x) => Ok(x.ints()),
                    Err(e) => Err(e),
                },
            ),
    {
        let bounds: [(i32, i32); 1] = [(i32::MIN, i32::MAX)];
        proof {
            assert(bounds@ =~= PlayerInfoRace::bounds());
        }
        match read_int_fields(p, &bounds) {
            Ok(v) => Ok(PlayerInfoRace::from_ints(v.as_slice())),
            Err(e) => Err(e),
        }
    }

    /// Reads the object from `p`, warning about integers left over.
    pub fn decode(warns: &mut Vec<ExcessData>, p: &mut IntUnpacker) -> (r: Result<PlayerInfoRace, Error>)
        ensures
            decoded_all(
                PlayerInfoRace::bounds(),
                old(p)@,
                final(p)@,
                match r {
                    Ok(x) => Ok(x.ints()),
                    Err(e) => Err(e),
                },
                old(warns)@,
                final(warns)@,
            ),
    {
        let result = match PlayerInfoRace::decode_inner(p) {
            Ok(x) => x,
            Err(e) => return Err(e),
        };
        p.finish(warns);
        Ok(result)
    }

    /// The integers the object is sent as.
    pub fn encode(&self) -> (r: Vec<i32>)
        ensures
            r@ == self.ints(),
    {
        let mut v: Vec<i32> = Vec::new();
        v.push(self.race_start_tick.0);
        proof {
            assert(v@ =~= self.ints());
        }
        v
    }
}

/// Decoding the integers of a valid `PlayerInfoRace`, followed by anything, gives it
/// back: they are in bounds, and no other `PlayerInfoRace` has the same integers.
pub proof fn lemma_player_info_race_roundtrip(x: PlayerInfoRace, y: PlayerInfoRace, rest: Seq<i32>)
    requires
        x.valid(),
    ensures
        fits(PlayerInfoRace::bounds(), x.ints()),
        decode_error(PlayerInfoRace::bounds(), x.ints() + rest) is None,
        (x.ints() + rest).subrange(0, 1) == x.ints(),
        y.ints() == x.ints() ==> y == x,
{
    assert forall|i: int| 0 <= i < 1 implies #[trigger] crate::gamenet::in_bounds(PlayerInfoRace::bounds()[i], x.ints()[i]) by {
    }
    lemma_decode_fits(PlayerInfoRace::bounds(), x.ints(), rest);
    if y.ints() == x.ints() {
        assert forall|i: int| 0 <= i < 1 implies y.ints()[i] == x.ints()[i] by {}
        assert(y.ints()[0] == x.ints()[0]);
    }
}

impl GameDataRace {
    /// The integers the object is sent as.
    pub open spec fn ints(self) -> Seq<i32> {
        seq![self.best_time, self.precision, self.race_flags]
    }

    /// The bounds of each of the integers.
    pub open spec fn bounds() -> Seq<(i32, i32)> {
        seq![(-1i32, i32::MAX), (0i32, 3i32), (i32::MIN, i32::MAX)]
    }

    /// The fields lie in their ranges.
    pub open spec fn valid(self) -> bool {
        &&& -1 <= self.best_time
        &&& 0 <= self.precision && self.precision <= 3
    }

    pub(crate) fn from_ints(v: &[i32]) -> (r: GameDataRace)
        requires
            fits(GameDataRace::bounds(), v@),
        ensures
            r.ints() == v@,
    {
        proof {
            assert forall|i: int| 0 <= i < 3 implies crate::gamenet::in_bounds(GameDataRace::bounds()[i], v@[i]) by {
                assert(crate::gamenet::in_bounds(GameDataRace::bounds()[i], v@[i]));
            }
        }
        let r = GameDataRace {
            best_time: v[0],
            precision: v[1],
            race_flags: v[2],
        };
        proof {
            assert(r.ints() =~= v@);
        }
        r
    }

    /// Reads the object's integers from `p`.
    pub fn decode_inner(p: &mut IntUnpacker) -> (r: Result<GameDataRace, Error>)
        ensures
            decoded(
                GameDataRace::bounds(),
                old(p)@,
                final(p)@,
                match r {
                    Ok(x) => Ok(x.ints()),
                    Err(e) => Err(e),
                },
            ),
    {
        let bounds: [(i32, i32); 3] = [(-1i32, i32::MAX), (0i32, 3i32), (i32::MIN, i32::MAX)];
        proof {
            assert(bounds@ =~= GameDataRace::bounds());
        }
        match read_int_fields(p, &bounds) {
            Ok(v) => Ok(GameDataRace::from_ints(v.as_slice())),
            Err(e) => Err(e),
        }
    }

    /// Reads the object from `p`, warning about integers left over.
    pub fn decode(warns: &mut Vec<ExcessData>, p: &mut IntUnpacker) -> (r: Result<GameDataRace, Error>)
        ensures
            decoded_all(
                GameDataRace::bounds(),
                old(p)@,
                final(p)@,
                match r {
                    Ok(x) => Ok(x.ints()),
                    Err(e) => Err(e),
                },
                old(warns)@,
                final(warns)@,
            ),
    {
        let result = match GameDataRace::decode_inner(p) {
            Ok(x) => x,
            Err(e) => return Err(e),
        };
        p.finish(warns);
        Ok(result)
    }

    /// The integers the object is sent as.
    pub fn encode(&self) -> (r: Vec<i32>)
        requires
            self.valid(),
        ensures
            r@ == self.ints(),
    {
        let mut v: Vec<i32> = Vec::new();
        v.push(self.best_time);
        v.push(self.precision);
        v.push(self.race_flags);
        proof {
            assert(v@ =~= self.ints());
        }
        v
    }
}

/// Decoding the integers of a valid `GameDataRace`, followed by anything, gives it
/// back: they are in bounds, and no other `GameDataRace` has the same integers.
pub proof fn lemma_game_data_race_roundtrip(x: GameDataRace, y: GameDataRace, rest: Seq<i32>)
    requires
        x.valid(),
    ensures
        fits(GameDataRace::bounds(), x.ints()),
        decode_error(GameDataRace::bounds(), x.ints() + rest) is None,
        (x.ints() + rest).subrange(0, 3) == x.ints(),
        y.ints() == x.ints() ==> y == x,
{
    assert forall|i: int| 0 <= i < 3 implies #[trigger] crate::gamenet::in_bounds(GameDataRace::bounds()[i], x.ints()[i]) by {
    }
    lemma_decode_fits(GameDataRace::bounds(), x.ints(), rest);
    if y.ints() == x.ints() {
        assert forall|i: int| 0 <= i < 3 implies y.ints()[i] == x.ints()[i] by {}
        assert(y.ints()[0] == x.ints()[0]);
        assert(y.ints()[1] == x.ints()[1]);
        assert(y.ints()[2] == x.ints()[2]);
    }
}

impl SnapObj {
    /// The integers of the object.
    pub open spec fn ints(self) -> Seq<i32> {
        match self {
            SnapObj::PlayerInput(i) => i.ints(),
            SnapObj::Projectile(i) => i.ints(),
            SnapObj::Laser(i) => i.ints(),
            SnapObj::Pickup(i) => i.ints(),
            SnapObj::Flag(i) => i.ints(),
            SnapObj::GameData(i) => i.ints(),
            SnapObj::GameDataTeam(i) => i.ints(),
            SnapObj::GameDataFlag(i) => i.ints(),
            SnapObj::CharacterCore(i) => i.ints(),
            SnapObj::Character(i) => i.ints(),
            SnapObj::PlayerInfo(i) => i.ints(),
            SnapObj::SpectatorInfo(i) => i.ints(),
            SnapObj::DeClientInfo(i) => i.ints(),
            SnapObj::DeGameInfo(i) => i.ints(),
            SnapObj::DeTuneParams(i) => i.ints(),
            SnapObj::Common(i) => i.ints(),
            SnapObj::Explosion(i) => i.ints(),
            SnapObj::Spawn(i) => i.ints(),
            SnapObj::HammerHit(i) => i.ints(),
            SnapObj::Death(i) => i.ints(),
            SnapObj::SoundWorld(i) => i.ints(),
            SnapObj::Damage(i) => i.ints(),
            SnapObj::PlayerInfoRace(i) => i.ints(),
            SnapObj::GameDataRace(i) => i.ints(),
        }
    }

    /// The fields of the object lie in their ranges.
    pub open spec fn valid(self) -> bool {
        match self {
            SnapObj::PlayerInput(i) => i.valid(),
            SnapObj::Projectile(i) => i.valid(),
            SnapObj::Laser(i) => i.valid(),
            SnapObj::Pickup(i) => i.valid(),
            SnapObj::Flag(i) => i.valid(),
            SnapObj::GameData(i) => i.valid(),
            SnapObj::GameDataTeam(i) => i.valid(),
            SnapObj::GameDataFlag(i) => i.valid(),
            SnapObj::CharacterCore(i) => i.valid(),
            SnapObj::Character(i) => i.valid(),
            SnapObj::PlayerInfo(i) => i.valid(),
            SnapObj::SpectatorInfo(i) => i.valid(),
            SnapObj::DeClientInfo(i) => i.valid(),
            SnapObj::DeGameInfo(i) => i.valid(),
            SnapObj::DeTuneParams(i) => i.valid(),
            SnapObj::Common(i) => i.valid(),
            SnapObj::Explosion(i) => i.valid(),
            SnapObj::Spawn(i) => i.valid(),
            SnapObj::HammerHit(i) => i.valid(),
            SnapObj::Death(i) => i.valid(),
            SnapObj::SoundWorld(i) => i.valid(),
            SnapObj::Damage(i) => i.valid(),
            SnapObj::PlayerInfoRace(i) => i.valid(),
            SnapObj::GameDataRace(i) => i.valid(),
        }
    }

    /// The type number of the object.
    pub open spec fn type_number(self) -> u16 {
        match self {
            SnapObj::PlayerInput(_) => PLAYER_INPUT,
            SnapObj::Projectile(_) => PROJECTILE,
            SnapObj::Laser(_) => LASER,
            SnapObj::Pickup(_) => PICKUP,
            SnapObj::Flag(_) => FLAG,
            SnapObj::GameData(_) => GAME_DATA,
            SnapObj::GameDataTeam(_) => GAME_DATA_TEAM,
            SnapObj::GameDataFlag(_) => GAME_DATA_FLAG,
            SnapObj::CharacterCore(_) => CHARACTER_CORE,
            SnapObj::Character(_) => CHARACTER,
            SnapObj::PlayerInfo(_) => PLAYER_INFO,
            SnapObj::SpectatorInfo(_) => SPECTATOR_INFO,
            SnapObj::DeClientInfo(_) => DE_CLIENT_INFO,
            SnapObj::DeGameInfo(_) => DE_GAME_INFO,
            SnapObj::DeTuneParams(_) => DE_TUNE_PARAMS,
            SnapObj::Common(_) => COMMON,
            SnapObj::Explosion(_) => EXPLOSION,
            SnapObj::Spawn(_) => SPAWN,
            SnapObj::HammerHit(_) => HAMMER_HIT,
            SnapObj::Death(_) => DEATH,
            SnapObj::SoundWorld(_) => SOUND_WORLD,
            SnapObj::Damage(_) => DAMAGE,
            SnapObj::PlayerInfoRace(_) => PLAYER_INFO_RACE,
            SnapObj::GameDataRace(_) => GAME_DATA_RACE,
        }
    }

    /// Reads an object of type `obj_type_id` from `p`, warning about
    /// integers left over.
    pub fn decode_obj(warns: &mut Vec<ExcessData>, obj_type_id: TypeId, p: &mut IntUnpacker) -> (r: Result<SnapObj, Error>)
        ensures
            match obj_type_id {
                TypeId::Ordinal(t) => match obj_bounds(t) {
                    Some(b) => decoded_all(
                        b,
                        old(p)@,
                        final(p)@,
                        match r {
                            Ok(x) => Ok(x.ints()),
                            Err(e) => Err(e),
                        },
                        old(warns)@,
                        final(warns)@,
                    ) && (r matches Ok(x) ==> x.type_number() == t),
                    None => r == Err::<SnapObj, Error>(Error::UnknownId) && final(p)@ == old(p)@ && final(warns)@ == old(warns)@,
                },
                TypeId::Uuid(_) => r == Err::<SnapObj, Error>(Error::UnknownId) && final(p)@ == old(p)@ && final(warns)@ == old(warns)@,
            },
    {
        let t = match obj_type_id {
            TypeId::Ordinal(t) => t,
            TypeId::Uuid(_) => return Err(Error::UnknownId),
        };
        if t == PLAYER_INPUT {
            match PlayerInput::decode(warns, p) {
                Ok(x) => Ok(SnapObj::PlayerInput(x)),
                Err(e) => Err(e),
            }
        } else if t == PROJECTILE {
            match Projectile::decode(warns, p) {
                Ok(x) => Ok(SnapObj::Projectile(x)),
                Err(e) => Err(e),
            }
        } else if t == LASER {
            match Laser::decode(warns, p) {
                Ok(x) => Ok(SnapObj::Laser(x)),
                Err(e) => Err(e),
            }
        } else if t == PICKUP {
            match Pickup::decode(warns, p) {
                Ok(x) => Ok(SnapObj::Pickup(x)),
                Err(e) => Err(e),
            }
        } else if t == FLAG {
            match Flag::decode(warns, p) {
                Ok(x) => Ok(SnapObj::Flag(x)),
                Err(e) => Err(e),
            }
        } else if t == GAME_DATA {
            match GameData::decode(warns, p) {
                Ok(x) => Ok(SnapObj::GameData(x)),
                Err(e) => Err(e),
            }
        } else if t == GAME_DATA_TEAM {
            match GameDataTeam::decode(warns, p) {
                Ok(x) => Ok(SnapObj::GameDataTeam(x)),
                Err(e) => Err(e),
            }
        } else if t == GAME_DATA_FLAG {
            match GameDataFlag::decode(warns, p) {
                Ok(x) => Ok(SnapObj::GameDataFlag(x)),
                Err(e) => Err(e),
            }
        } else if t == CHARACTER_CORE {
            match CharacterCore::decode(warns, p) {
                Ok(x) => Ok(SnapObj::CharacterCore(x)),
                Err(e) => Err(e),
            }
        } else if t == CHARACTER {
            match Character::decode(warns, p) {
                Ok(x) => Ok(SnapObj::Character(x)),
                Err(e) => Err(e),
            }
        } else if t == PLAYER_INFO {
            match PlayerInfo::decode(warns, p) {
                Ok(x) => Ok(SnapObj::PlayerInfo(x)),
                Err(e) => Err(e),
            }
        } else if t == SPECTATOR_INFO {
            match SpectatorInfo::decode(warns, p) {
                Ok(x) => Ok(SnapObj::SpectatorInfo(x)),
                Err(e) => Err(e),
            }
        } else if t == DE_CLIENT_INFO {
            match DeClientInfo::decode(warns, p) {
                Ok(x) => Ok(SnapObj::DeClientInfo(x)),
                Err(e) => Err(e),
            }
        } else if t == DE_GAME_INFO {
            match DeGameInfo::decode(warns, p) {
                Ok(x) => Ok(SnapObj::DeGameInfo(x)),
                Err(e) => Err(e),
            }
        } else if t == DE_TUNE_PARAMS {
            match DeTuneParams::decode(warns, p) {
                Ok(x) => Ok(SnapObj::DeTuneParams(x)),
                Err(e) => Err(e),
            }
        } else if t == COMMON {
            match Common::decode(warns, p) {
                Ok(x) => Ok(SnapObj::Common(x)),
                Err(e) => Err(e),
            }
        } else if t == EXPLOSION {
            match Explosion::decode(warns, p) {
                Ok(x) => Ok(SnapObj::Explosion(x)),
                Err(e) => Err(e),
            }
        } else if t == SPAWN {
            match Spawn::decode(warns, p) {
                Ok(x) => Ok(SnapObj::Spawn(x)),
                Err(e) => Err(e),
            }
        } else if t == HAMMER_HIT {
            match HammerHit::decode(warns, p) {
                Ok(x) => Ok(SnapObj::HammerHit(x)),
                Err(e) => Err(e),
            }
        } else if t == DEATH {
            match Death::decode(warns, p) {
                Ok(x) => Ok(SnapObj::Death(x)),
                Err(e) => Err(e),
            }
        } else if t == SOUND_WORLD {
            match SoundWorld::decode(warns, p) {
                Ok(x) => Ok(SnapObj::SoundWorld(x)),
                Err(e) => Err(e),
            }
        } else if t == DAMAGE {
            match Damage::decode(warns, p) {
                Ok(x) => Ok(SnapObj::Damage(x)),
                Err(e) => Err(e),
            }
        } else if t == PLAYER_INFO_RACE {
            match PlayerInfoRace::decode(warns, p) {
                Ok(x) => Ok(SnapObj::PlayerInfoRace(x)),
                Err(e) => Err(e),
            }
        } else if t == GAME_DATA_RACE {
            match GameDataRace::decode(warns, p) {
                Ok(x) => Ok(SnapObj::GameDataRace(x)),
                Err(e) => Err(e),
            }
        } else {
            Err(Error::UnknownId)
        }
    }

    /// The type of the object.
    pub fn obj_type_id(&self) -> (r: TypeId)
        ensures
            r == TypeId::Ordinal(self.type_number()),
    {
        match *self {
            SnapObj::PlayerInput(_) => TypeId::Ordinal(PLAYER_INPUT),
            SnapObj::Projectile(_) => TypeId::Ordinal(PROJECTILE),
            SnapObj::Laser(_) => TypeId::Ordinal(LASER),
            SnapObj::Pickup(_) => TypeId::Ordinal(PICKUP),
            SnapObj::Flag(_) => TypeId::Ordinal(FLAG),
            SnapObj::GameData(_) => TypeId::Ordinal(GAME_DATA),
            SnapObj::GameDataTeam(_) => TypeId::Ordinal(GAME_DATA_TEAM),
            SnapObj::GameDataFlag(_) => TypeId::Ordinal(GAME_DATA_FLAG),
            SnapObj::CharacterCore(_) => TypeId::Ordinal(CHARACTER_CORE),
            SnapObj::Character(_) => TypeId::Ordinal(CHARACTER),
            SnapObj::PlayerInfo(_) => TypeId::Ordinal(PLAYER_INFO),
            SnapObj::SpectatorInfo(_) => TypeId::Ordinal(SPECTATOR_INFO),
            SnapObj::DeClientInfo(_) => TypeId::Ordinal(DE_CLIENT_INFO),
            SnapObj::DeGameInfo(_) => TypeId::Ordinal(DE_GAME_INFO),
            SnapObj::DeTuneParams(_) => TypeId::Ordinal(DE_TUNE_PARAMS),
            SnapObj::Common(_) => TypeId::Ordinal(COMMON),
            SnapObj::Explosion(_) => TypeId::Ordinal(EXPLOSION),
            SnapObj::Spawn(_) => TypeId::Ordinal(SPAWN),
            SnapObj::HammerHit(_) => TypeId::Ordinal(HAMMER_HIT),
            SnapObj::Death(_) => TypeId::Ordinal(DEATH),
            SnapObj::SoundWorld(_) => TypeId::Ordinal(SOUND_WORLD),
            SnapObj::Damage(_) => TypeId::Ordinal(DAMAGE),
            SnapObj::PlayerInfoRace(_) => TypeId::Ordinal(PLAYER_INFO_RACE),
            SnapObj::GameDataRace(_) => TypeId::Ordinal(GAME_DATA_RACE),
        }
    }

    /// The integers the object is sent as.
    pub fn encode(&self) -> (r: Vec<i32>)
        requires
            self.valid(),
        ensures
            r@ == self.ints(),
    {
        match *self {
            SnapObj::PlayerInput(ref i) => i.encode(),
            SnapObj::Projectile(ref i) => i.encode(),
            SnapObj::Laser(ref i) => i.encode(),
            SnapObj::Pickup(ref i) => i.encode(),
            SnapObj::Flag(ref i) => i.encode(),
            SnapObj::GameData(ref i) => i.encode(),
            SnapObj::GameDataTeam(ref i) => i.encode(),
            SnapObj::GameDataFlag(ref i) => i.encode(),
            SnapObj::CharacterCore(ref i) => i.encode(),
            SnapObj::Character(ref i) => i.encode(),
            SnapObj::PlayerInfo(ref i) => i.encode(),
            SnapObj::SpectatorInfo(ref i) => i.encode(),
            SnapObj::DeClientInfo(ref i) => i.encode(),
            SnapObj::DeGameInfo(ref i) => i.encode(),
            SnapObj::DeTuneParams(ref i) => i.encode(),
            SnapObj::Common(ref i) => i.encode(),
            SnapObj::Explosion(ref i) => i.encode(),
            SnapObj::Spawn(ref i) => i.encode(),
            SnapObj::HammerHit(ref i) => i.encode(),
            SnapObj::Death(ref i) => i.encode(),
            SnapObj::SoundWorld(ref i) => i.encode(),
            SnapObj::Damage(ref i) => i.encode(),
            SnapObj::PlayerInfoRace(ref i) => i.encode(),
            SnapObj::GameDataRace(ref i) => i.encode(),
        }
    }
}

/// The bounds of the integers of objects of type `t`, if it is known.
pub open spec fn obj_bounds(t: u16) -> Option<Seq<(i32, i32)>> {
    if t == PLAYER_INPUT {
        Some(PlayerInput::bounds())
    } else if t == PROJECTILE {
        Some(Projectile::bounds())
    } else if t == LASER {
        Some(Laser::bounds())
    } else if t == PICKUP {
        Some(Pickup::bounds())
    } else if t == FLAG {
        Some(Flag::bounds())
    } else if t == GAME_DATA {
        Some(GameData::bounds())
    } else if t == GAME_DATA_TEAM {
        Some(GameDataTeam::bounds())
    } else if t == GAME_DATA_FLAG {
        Some(GameDataFlag::bounds())
    } else if t == CHARACTER_CORE {
        Some(CharacterCore::bounds())
    } else if t == CHARACTER {
        Some(Character::bounds())
    } else if t == PLAYER_INFO {
        Some(PlayerInfo::bounds())
    } else if t == SPECTATOR_INFO {
        Some(SpectatorInfo::bounds())
    } else if t == DE_CLIENT_INFO {
        Some(DeClientInfo::bounds())
    } else if t == DE_GAME_INFO {
        Some(DeGameInfo::bounds())
    } else if t == DE_TUNE_PARAMS {
        Some(DeTuneParams::bounds())
    } else if t == COMMON {
        Some(Common::bounds())
    } else if t == EXPLOSION {
        Some(Explosion::bounds())
    } else if t == SPAWN {
        Some(Spawn::bounds())
    } else if t == HAMMER_HIT {
        Some(HammerHit::bounds())
    } else if t == DEATH {
        Some(Death::bounds())
    } else if t == SOUND_WORLD {
        Some(SoundWorld::bounds())
    } else if t == DAMAGE {
        Some(Damage::bounds())
    } else if t == PLAYER_INFO_RACE {
        Some(PlayerInfoRace::bounds())
    } else if t == GAME_DATA_RACE {
        Some(GameDataRace::bounds())
    } else {
        None
    }
}

/// The number of integers of objects of type `type_`, if it is known.
pub fn obj_size(type_: u16) -> (r: Option<u32>)
    ensures
        r == (match obj_bounds(type_) {
            Some(b) => Some(b.len() as u32),
            None => None,
        }),
{
    if type_ == PLAYER_INPUT {
        Some(10)
    } else if type_ == PROJECTILE {
        Some(6)
    } else if type_ == LASER {
        Some(5)
    } else if type_ == PICKUP {
        Some(3)
    } else if type_ == FLAG {
        Some(3)
    } else if type_ == GAME_DATA {
        Some(3)
    } else if type_ == GAME_DATA_TEAM {
        Some(2)
    } else if type_ == GAME_DATA_FLAG {
        Some(4)
    } else if type_ == CHARACTER_CORE {
        Some(15)
    } else if type_ == CHARACTER {
        Some(22)
    } else if type_ == PLAYER_INFO {
        Some(3)
    } else if type_ == SPECTATOR_INFO {
        Some(4)
    } else if type_ == DE_CLIENT_INFO {
        Some(58)
    } else if type_ == DE_GAME_INFO {
        Some(5)
    } else if type_ == DE_TUNE_PARAMS {
        Some(32)
    } else if type_ == COMMON {
        Some(2)
    } else if type_ == EXPLOSION {
        Some(2)
    } else if type_ == SPAWN {
        Some(2)
    } else if type_ == HAMMER_HIT {
        Some(2)
    } else if type_ == DEATH {
        Some(3)
    } else if type_ == SOUND_WORLD {
        Some(3)
    } else if type_ == DAMAGE {
        Some(7)
    } else if type_ == PLAYER_INFO_RACE {
        Some(1)
    } else if type_ == GAME_DATA_RACE {
        Some(3)
    } else {
        None
    }
}

/// Decoding the integers of a valid snapshot object, as an object of its
/// type, gives it back: its type is known, it has as many integers as the
/// type has fields, all in their bounds, and no other object of the type has
/// the same integers.
pub proof fn lemma_snap_obj_roundtrip(x: SnapObj, y: SnapObj)
    requires
        x.valid(),
    ensures
        obj_bounds(x.type_number()) matches Some(b) && b.len() == x.ints().len() && decode_error(
            b,
            x.ints(),
        ) is None,
        y.type_number() == x.type_number() && y.ints() == x.ints() ==> y == x,
{
    match x {
        SnapObj::PlayerInput(a) => {
            let b = match y {
                SnapObj::PlayerInput(b) => b,
                _ => a,
            };
            lemma_player_input_roundtrip(a, b, Seq::empty());
            assert(a.ints() + Seq::<i32>::empty() =~= a.ints());
        },
        SnapObj::Projectile(a) => {
            let b = match y {
                SnapObj::Projectile(b) => b,
                _ => a,
            };
            lemma_projectile_roundtrip(a, b, Seq::empty());
            assert(a.ints() + Seq::<i32>::empty() =~= a.ints());
        },
        SnapObj::Laser(a) => {
            let b = match y {
                SnapObj::Laser(b) => b,
                _ => a,
            };
            lemma_laser_roundtrip(a, b, Seq::empty());
            assert(a.ints() + Seq::<i32>::empty() =~= a.ints());
        },
        SnapObj::Pickup(a) => {
            let b = match y {
                SnapObj::Pickup(b) => b,
                _ => a,
            };
            lemma_pickup_roundtrip(a, b, Seq::empty());
            assert(a.ints() + Seq::<i32>::empty() =~= a.ints());
        },
        SnapObj::Flag(a) => {
            let b = match y {
                SnapObj::Flag(b) => b,
                _ => a,
            };
            lemma_flag_roundtrip(a, b, Seq::empty());
            assert(a.ints() + Seq::<i32>::empty() =~= a.ints());
        },
        SnapObj::GameData(a) => {
            let b = match y {
                SnapObj::GameData(b) => b,
                _ => a,
            };
            lemma_game_data_roundtrip(a, b, Seq::empty());
            assert(a.ints() + Seq::<i32>::empty() =~= a.ints());
        },
        SnapObj::GameDataTeam(a) => {
            let b = match y {
                SnapObj::GameDataTeam(b) => b,
                _ => a,
            };
            lemma_game_data_team_roundtrip(a, b, Seq::empty());
            assert(a.ints() + Seq::<i32>::empty() =~= a.ints());
        },
        SnapObj::GameDataFlag(a) => {
            let b = match y {
                SnapObj::GameDataFlag(b) => b,
                _ => a,
            };
            lemma_game_data_flag_roundtrip(a, b, Seq::empty());
            assert(a.ints() + Seq::<i32>::empty() =~= a.ints());
        },
        SnapObj::CharacterCore(a) => {
            let b = match y {
                SnapObj::CharacterCore(b) => b,
                _ => a,
            };
            lemma_character_core_roundtrip(a, b, Seq::empty());
            assert(a.ints() + Seq::<i32>::empty() =~= a.ints());
        },
        SnapObj::Character(a) => {
            let b = match y {
                SnapObj::Character(b) => b,
                _ => a,
            };
            lemma_character_roundtrip(a, b, Seq::empty());
            assert(a.ints() + Seq::<i32>::empty() =~= a.ints());
        },
        SnapObj::PlayerInfo(a) => {
            let b = match y {
                SnapObj::PlayerInfo(b) => b,
                _ => a,
            };
            lemma_player_info_roundtrip(a, b, Seq::empty());
            assert(a.ints() + Seq::<i32>::empty() =~= a.ints());
        },
        SnapObj::SpectatorInfo(a) => {
            let b = match y {
                SnapObj::SpectatorInfo(b) => b,
                _ => a,
            };
            lemma_spectator_info_roundtrip(a, b, Seq::empty());
            assert(a.ints() + Seq::<i32>::empty() =~= a.ints());
        },
        SnapObj::DeClientInfo(a) => {
            let b = match y {
                SnapObj::DeClientInfo(b) => b,
                _ => a,
            };
            lemma_de_client_info_roundtrip(a, b, Seq::empty());
            assert(a.ints() + Seq::<i32>::empty() =~= a.ints());
        },
        SnapObj::DeGameInfo(a) => {
            let b = match y {
                SnapObj::DeGameInfo(b) => b,
                _ => a,
            };
            lemma_de_game_info_roundtrip(a, b, Seq::empty());
            assert(a.ints() + Seq::<i32>::empty() =~= a.ints());
        },
        SnapObj::DeTuneParams(a) => {
            let b = match y {
                SnapObj::DeTuneParams(b) => b,
                _ => a,
            };
            lemma_de_tune_params_roundtrip(a, b, Seq::empty());
            assert(a.ints() + Seq::<i32>::empty() =~= a.ints());
        },
        SnapObj::Common(a) => {
            let b = match y {
                SnapObj::Common(b) => b,
                _ => a,
            };
            lemma_common_roundtrip(a, b, Seq::empty());
            assert(a.ints() + Seq::<i32>::empty() =~= a.ints());
        },
        SnapObj::Explosion(a) => {
            let b = match y {
                SnapObj::Explosion(b) => b,
                _ => a,
            };
            lemma_explosion_roundtrip(a, b, Seq::empty());
            assert(a.ints() + Seq::<i32>::empty() =~= a.ints());
        },
        SnapObj::Spawn(a) => {
            let b = match y {
                SnapObj::Spawn(b) => b,
                _ => a,
            };
            lemma_spawn_roundtrip(a, b, Seq::empty());
            assert(a.ints() + Seq::<i32>::empty() =~= a.ints());
        },
        SnapObj::HammerHit(a) => {
            let b = match y {
                SnapObj::HammerHit(b) => b,
                _ => a,
            };
            lemma_hammer_hit_roundtrip(a, b, Seq::empty());
            assert(a.ints() + Seq::<i32>::empty() =~= a.ints());
        },
        SnapObj::Death(a) => {
            let b = match y {
                SnapObj::Death(b) => b,
                _ => a,
            };
            lemma_death_roundtrip(a, b, Seq::empty());
            assert(a.ints() + Seq::<i32>::empty() =~= a.ints());
        },
        SnapObj::SoundWorld(a) => {
            let b = match y {
                SnapObj::SoundWorld(b) => b,
                _ => a,
            };
            lemma_sound_world_roundtrip(a, b, Seq::empty());
            assert(a.ints() + Seq::<i32>::empty() =~= a.ints());
        },
        SnapObj::Damage(a) => {
            let b = match y {
                SnapObj::Damage(b) => b,
                _ => a,
            };
            lemma_damage_roundtrip(a, b, Seq::empty());
            assert(a.ints() + Seq::<i32>::empty() =~= a.ints());
        },
        SnapObj::PlayerInfoRace(a) => {
            let b = match y {
                SnapObj::PlayerInfoRace(b) => b,
                _ => a,
            };
            lemma_player_info_race_roundtrip(a, b, Seq::empty());
            assert(a.ints() + Seq::<i32>::empty() =~= a.ints());
        },
        SnapObj::GameDataRace(a) => {
            let b = match y {
                SnapObj::GameDataRace(b) => b,
                _ => a,
            };
            lemma_game_data_race_roundtrip(a, b, Seq::empty());
            assert(a.ints() + Seq::<i32>::empty() =~= a.ints());
        },
    }
}

/// Reading a `PlayerInput` takes its fields in the order they are sent: `v`,
/// what it is sent as, holds them one after the other.
pub proof fn lemma_player_input_field_order(x: PlayerInput, v: Seq<i32>)
    requires
        x.ints() == v,
    ensures
        v.len() == 10,
        v[0] == x.direction,
        v[1] == x.target_x,
        v[2] == x.target_y,
        v[3] == bool_int(x.jump),
        v[4] == x.fire,
        v[5] == bool_int(x.hook),
        v[6] == x.player_flags,
        v[7] == x.wanted_weapon,
        v[8] == x.next_weapon,
        v[9] == x.prev_weapon,
{
}

/// Reading a `Projectile` takes its fields in the order they are sent: `v`,
/// what it is sent as, holds them one after the other.
pub proof fn lemma_projectile_field_order(x: Projectile, v: Seq<i32>)
    requires
        x.ints() == v,
    ensures
        v.len() == 6,
        v[0] == x.x,
        v[1] == x.y,
        v[2] == x.vel_x,
        v[3] == x.vel_y,
        v[4] == x.type_.value(),
        v[5] == x.start_tick.0,
{
}

/// Reading a `Laser` takes its fields in the order they are sent: `v`,
/// what it is sent as, holds them one after the other.
pub proof fn lemma_laser_field_order(x: Laser, v: Seq<i32>)
    requires
        x.ints() == v,
    ensures
        v.len() == 5,
        v[0] == x.x,
        v[1] == x.y,
        v[2] == x.from_x,
        v[3] == x.from_y,
        v[4] == x.start_tick.0,
{
}

/// Reading a `Pickup` takes its fields in the order they are sent: `v`,
/// what it is sent as, holds them one after the other.
pub proof fn lemma_pickup_field_order(x: Pickup, v: Seq<i32>)
    requires
        x.ints() == v,
    ensures
        v.len() == 3,
        v[0] == x.x,
        v[1] == x.y,
        v[2] == x.type_.value(),
{
}

/// Reading a `Flag` takes its fields in the order they are sent: `v`,
/// what it is sent as, holds them one after the other.
pub proof fn lemma_flag_field_order(x: Flag, v: Seq<i32>)
    requires
        x.ints() == v,
    ensures
        v.len() == 3,
        v[0] == x.x,
        v[1] == x.y,
        v[2] == x.team,
{
}

/// Reading a `GameData` takes its fields in the order they are sent: `v`,
/// what it is sent as, holds them one after the other.
pub proof fn lemma_game_data_field_order(x: GameData, v: Seq<i32>)
    requires
        x.ints() == v,
    ensures
        v.len() == 3,
        v[0] == x.game_start_tick.0,
        v[1] == x.game_state_flags,
        v[2] == x.game_state_end_tick.0,
{
}

/// Reading a `GameDataTeam` takes its fields in the order they are sent: `v`,
/// what it is sent as, holds them one after the other.
pub proof fn lemma_game_data_team_field_order(x: GameDataTeam, v: Seq<i32>)
    requires
        x.ints() == v,
    ensures
        v.len() == 2,
        v[0] == x.teamscore_red,
        v[1] == x.teamscore_blue,
{
}

/// Reading a `GameDataFlag` takes its fields in the order they are sent: `v`,
/// what it is sent as, holds them one after the other.
pub proof fn lemma_game_data_flag_field_order(x: GameDataFlag, v: Seq<i32>)
    requires
        x.ints() == v,
    ensures
        v.len() == 4,
        v[0] == x.flag_carrier_red,
        v[1] == x.flag_carrier_blue,
        v[2] == x.flag_drop_tick_red.0,
        v[3] == x.flag_drop_tick_blue.0,
{
}

/// Reading a `CharacterCore` takes its fields in the order they are sent: `v`,
/// what it is sent as, holds them one after the other.
pub proof fn lemma_character_core_field_order(x: CharacterCore, v: Seq<i32>)
    requires
        x.ints() == v,
    ensures
        v.len() == 15,
        v[0] == x.tick.0,
        v[1] == x.x,
        v[2] == x.y,
        v[3] == x.vel_x,
        v[4] == x.vel_y,
        v[5] == x.angle,
        v[6] == x.direction,
        v[7] == x.jumped,
        v[8] == x.hooked_player,
        v[9] == x.hook_state,
        v[10] == x.hook_tick.0,
        v[11] == x.hook_x,
        v[12] == x.hook_y,
        v[13] == x.hook_dx,
        v[14] == x.hook_dy,
{
}

/// Reading a `Character` takes its fields in the order they are sent: `v`,
/// what it is sent as, holds them one after the other.
pub proof fn lemma_character_field_order(x: Character, v: Seq<i32>)
    requires
        x.ints() == v,
    ensures
        v.len() == 22,
        v.subrange(0, 15) == x.character_core.ints(),
        v[15] == x.health,
        v[16] == x.armor,
        v[17] == x.ammo_count,
        v[18] == x.weapon.value(),
        v[19] == x.emote.value(),
        v[20] == x.attack_tick.0,
        v[21] == x.triggered_events,
{
}

/// Reading a `PlayerInfo` takes its fields in the order they are sent: `v`,
/// what it is sent as, holds them one after the other.
pub proof fn lemma_player_info_field_order(x: PlayerInfo, v: Seq<i32>)
    requires
        x.ints() == v,
    ensures
        v.len() == 3,
        v[0] == x.player_flags,
        v[1] == x.score,
        v[2] == x.latency,
{
}

/// Reading a `SpectatorInfo` takes its fields in the order they are sent: `v`,
/// what it is sent as, holds them one after the other.
pub proof fn lemma_spectator_info_field_order(x: SpectatorInfo, v: Seq<i32>)
    requires
        x.ints() == v,
    ensures
        v.len() == 4,
        v[0] == x.spec_mode.value(),
        v[1] == x.spectator_id,
        v[2] == x.x,
        v[3] == x.y,
{
}

/// Reading a `DeGameInfo` takes its fields in the order they are sent: `v`,
/// what it is sent as, holds them one after the other.
pub proof fn lemma_de_game_info_field_order(x: DeGameInfo, v: Seq<i32>)
    requires
        x.ints() == v,
    ensures
        v.len() == 5,
        v[0] == x.game_flags,
        v[1] == x.score_limit,
        v[2] == x.time_limit,
        v[3] == x.match_num,
        v[4] == x.match_current,
{
}

/// Reading a `Common` takes its fields in the order they are sent: `v`,
/// what it is sent as, holds them one after the other.
pub proof fn lemma_common_field_order(x: Common, v: Seq<i32>)
    requires
        x.ints() == v,
    ensures
        v.len() == 2,
        v[0] == x.x,
        v[1] == x.y,
{
}

/// Reading a `Explosion` takes its fields in the order they are sent: `v`,
/// what it is sent as, holds them one after the other.
pub proof fn lemma_explosion_field_order(x: Explosion, v: Seq<i32>)
    requires
        x.ints() == v,
    ensures
        v.len() == 2,
        v.subrange(0, 2) == x.common.ints(),
{
}

/// Reading a `Spawn` takes its fields in the order they are sent: `v`,
/// what it is sent as, holds them one after the other.
pub proof fn lemma_spawn_field_order(x: Spawn, v: Seq<i32>)
    requires
        x.ints() == v,
    ensures
        v.len() == 2,
        v.subrange(0, 2) == x.common.ints(),
{
}

/// Reading a `HammerHit` takes its fields in the order they are sent: `v`,
/// what it is sent as, holds them one after the other.
pub proof fn lemma_hammer_hit_field_order(x: HammerHit, v: Seq<i32>)
    requires
        x.ints() == v,
    ensures
        v.len() == 2,
        v.subrange(0, 2) == x.common.ints(),
{
}

/// Reading a `Death` takes its fields in the order they are sent: `v`,
/// what it is sent as, holds them one after the other.
pub proof fn lemma_death_field_order(x: Death, v: Seq<i32>)
    requires
        x.ints() == v,
    ensures
        v.len() == 3,
        v.subrange(0, 2) == x.common.ints(),
        v[2] == x.client_id,
{
}

/// Reading a `SoundWorld` takes its fields in the order they are sent: `v`,
/// what it is sent as, holds them one after the other.
pub proof fn lemma_sound_world_field_order(x: SoundWorld, v: Seq<i32>)
    requires
        x.ints() == v,
    ensures
        v.len() == 3,
        v.subrange(0, 2) == x.common.ints(),
        v[2] == x.sound_id.value(),
{
}

/// Reading a `Damage` takes its fields in the order they are sent: `v`,
/// what it is sent as, holds them one after the other.
pub proof fn lemma_damage_field_order(x: Damage, v: Seq<i32>)
    requires
        x.ints() == v,
    ensures
        v.len() == 7,
        v.subrange(0, 2) == x.common.ints(),
        v[2] == x.client_id,
        v[3] == x.angle,
        v[4] == x.health_amount,
        v[5] == x.armor_amount,
        v[6] == bool_int(x.self_),
{
}

/// Reading a `PlayerInfoRace` takes its fields in the order they are sent: `v`,
/// what it is sent as, holds them one after the other.
pub proof fn lemma_player_info_race_field_order(x: PlayerInfoRace, v: Seq<i32>)
    requires
        x.ints() == v,
    ensures
        v.len() == 1,
        v[0] == x.race_start_tick.0,
{
}

/// Reading a `GameDataRace` takes its fields in the order they are sent: `v`,
/// what it is sent as, holds them one after the other.
pub proof fn lemma_game_data_race_field_order(x: GameDataRace, v: Seq<i32>)
    requires
        x.ints() == v,
    ensures
        v.len() == 3,
        v[0] == x.best_time,
        v[1] == x.precision,
        v[2] == x.race_flags,
{
}

/// Reading a `DeClientInfo` takes its fields in the order they are sent:
/// `v`, what it is sent as, holds them one after the other.
pub proof fn lemma_de_client_info_field_order(x: DeClientInfo, v: Seq<i32>)
    requires
        x.ints() == v,
    ensures
        v.len() == 58,
        v[0] == bool_int(x.local),
        v[1] == x.team.value(),
        v.subrange(2, 6) == x.name@,
        v.subrange(6, 9) == x.clan@,
        v[9] == x.country,
        v.subrange(10, 16) == x.skin_part_names[0]@,
        v.subrange(16, 22) == x.skin_part_names[1]@,
        v.subrange(22, 28) == x.skin_part_names[2]@,
        v.subrange(28, 34) == x.skin_part_names[3]@,
        v.subrange(34, 40) == x.skin_part_names[4]@,
        v.subrange(40, 46) == x.skin_part_names[5]@,
        v[46] == bool_int(x.use_custom_colors[0]),
        v[47] == bool_int(x.use_custom_colors[1]),
        v[48] == bool_int(x.use_custom_colors[2]),
        v[49] == bool_int(x.use_custom_colors[3]),
        v[50] == bool_int(x.use_custom_colors[4]),
        v[51] == bool_int(x.use_custom_colors[5]),
        v.subrange(52, 58) == x.skin_part_colors@,
{
    assert(v.subrange(2, 6) =~= x.name@);
    assert(v.subrange(6, 9) =~= x.clan@);
    assert(v.subrange(10, 16) =~= x.skin_part_names[0]@);
    assert(v.subrange(16, 22) =~= x.skin_part_names[1]@);
    assert(v.subrange(22, 28) =~= x.skin_part_names[2]@);
    assert(v.subrange(28, 34) =~= x.skin_part_names[3]@);
    assert(v.subrange(34, 40) =~= x.skin_part_names[4]@);
    assert(v.subrange(40, 46) =~= x.skin_part_names[5]@);
    assert(v.subrange(52, 58) =~= x.skin_part_colors@);
}

} // verus!
