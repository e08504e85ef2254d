//! The game messages of the Teeworlds 0.7 protocol.
use vstd::prelude::*;
use crate::buffer::CapacityError;
use crate::gamenet::Error;
use crate::gamenet::enums;
use crate::gamenet::msg::Field;
use crate::gamenet::msg::Item;
use crate::gamenet::msg::MessageId;
use crate::gamenet::msg::TuneParam;
use crate::gamenet::msg::Value;
use crate::gamenet::msg::decoded_msg;
use crate::gamenet::msg::encoding;
use crate::gamenet::msg::fits_msg;
use crate::gamenet::msg::int_at;
use crate::gamenet::msg::int_fields;
use crate::gamenet::msg::int_items;
use crate::gamenet::msg::items_of;
use crate::gamenet::msg::lemma_int_items;
use crate::gamenet::msg::lemma_parse_encoding;
use crate::gamenet::msg::no_control;
use crate::gamenet::msg::parse;
use crate::gamenet::msg::read_fields;
use crate::gamenet::msg::str_at;
use crate::gamenet::msg::writable;
use crate::gamenet::msg::write_values;
use crate::gamenet::snap_obj::Projectile;
use crate::gamenet::snap_obj::Tick;
use crate::gamenet::snap_obj::bool_int;
use crate::packer::Packer;
use crate::packer::Unpacker;
use crate::packer::Warning;
use crate::packer::no_nul;

verus! {

pub const SV_MOTD: i32 = 1;

pub const SV_BROADCAST: i32 = 2;

pub const SV_CHAT: i32 = 3;

pub const SV_TEAM: i32 = 4;

pub const SV_KILL_MSG: i32 = 5;

pub const SV_TUNE_PARAMS: i32 = 6;

pub const SV_EXTRA_PROJECTILE: i32 = 7;

pub const SV_READY_TO_ENTER: i32 = 8;

pub const SV_WEAPON_PICKUP: i32 = 9;

pub const SV_EMOTICON: i32 = 10;

pub const SV_VOTE_CLEAR_OPTIONS: i32 = 11;

pub const SV_VOTE_OPTION_LIST_ADD: i32 = 12;

pub const SV_VOTE_OPTION_ADD: i32 = 13;

pub const SV_VOTE_OPTION_REMOVE: i32 = 14;

pub const SV_VOTE_SET: i32 = 15;

pub const SV_VOTE_STATUS: i32 = 16;

pub const SV_SERVER_SETTINGS: i32 = 17;

pub const SV_CLIENT_INFO: i32 = 18;

pub const SV_GAME_INFO: i32 = 19;

pub const SV_CLIENT_DROP: i32 = 20;

pub const SV_GAME_MSG: i32 = 21;

pub const DE_CLIENT_ENTER: i32 = 22;

pub const DE_CLIENT_LEAVE: i32 = 23;

pub const CL_SAY: i32 = 24;

pub const CL_SET_TEAM: i32 = 25;

pub const CL_SET_SPECTATOR_MODE: i32 = 26;

pub const CL_START_INFO: i32 = 27;

pub const CL_KILL: i32 = 28;

pub const CL_READY_CHANGE: i32 = 29;

pub const CL_EMOTICON: i32 = 30;

pub const CL_VOTE: i32 = 31;

pub const CL_CALL_VOTE: i32 = 32;

pub const SV_SKIN_CHANGE: i32 = 33;

pub const CL_SKIN_CHANGE: i32 = 34;

pub const SV_RACE_FINISH: i32 = 35;

pub const SV_CHECKPOINT: i32 = 36;

pub const SV_COMMAND_INFO: i32 = 37;

pub const SV_COMMAND_INFO_REMOVE: i32 = 38;

pub const CL_COMMAND: i32 = 39;

#[derive(Clone, Copy, Debug)]
pub struct SvMotd<'a> {
    pub message: &'a [u8],
}

#[derive(Clone, Copy, Debug)]
pub struct SvBroadcast<'a> {
    pub message: &'a [u8],
}

#[derive(Clone, Copy, Debug)]
pub struct SvChat<'a> {
    pub mode: enums::Chat,
    pub client_id: i32,
    pub target_id: i32,
    pub message: &'a [u8],
}

#[derive(Clone, Copy, Debug)]
pub struct SvTeam {
    pub client_id: i32,
    pub team: enums::Team,
    pub silent: bool,
    pub cooldown_tick: Tick,
}

#[derive(Clone, Copy, Debug)]
pub struct SvKillMsg {
    pub killer: i32,
    pub victim: i32,
    pub weapon: i32,
    pub mode_special: i32,
}

#[derive(Clone, Copy, Debug)]
pub struct SvTuneParams {
    pub ground_control_speed: TuneParam,
    pub ground_control_accel: TuneParam,
    pub ground_friction: TuneParam,
    pub ground_jump_impulse: TuneParam,
    pub air_jump_impulse: TuneParam,
    pub air_control_speed: TuneParam,
    pub air_control_accel: TuneParam,
    pub air_friction: TuneParam,
    pub hook_length: TuneParam,
    pub hook_fire_speed: TuneParam,
    pub hook_drag_accel: TuneParam,
    pub hook_drag_speed: TuneParam,
    pub gravity: TuneParam,
    pub velramp_start: TuneParam,
    pub velramp_range: TuneParam,
    pub velramp_curvature: TuneParam,
    pub gun_curvature: TuneParam,
    pub gun_speed: TuneParam,
    pub gun_lifetime: TuneParam,
    pub shotgun_curvature: TuneParam,
    pub shotgun_speed: TuneParam,
    pub shotgun_speeddiff: TuneParam,
    pub shotgun_lifetime: TuneParam,
    pub grenade_curvature: TuneParam,
    pub grenade_speed: TuneParam,
    pub grenade_lifetime: TuneParam,
    pub laser_reach: TuneParam,
    pub laser_bounce_delay: TuneParam,
    pub laser_bounce_num: TuneParam,
    pub laser_bounce_cost: TuneParam,
    pub player_collision: TuneParam,
    pub player_hooking: TuneParam,
}

#[derive(Clone, Copy, Debug)]
pub struct SvExtraProjectile {
    pub projectile: Projectile,
}

#[derive(Clone, Copy, Debug, PartialEq, Eq, Structural)]
pub struct SvReadyToEnter;

#[derive(Clone, Copy, Debug)]
pub struct SvWeaponPickup {
    pub weapon: enums::Weapon,
}

#[derive(Clone, Copy, Debug)]
pub struct SvEmoticon {
    pub client_id: i32,
    pub emoticon: enums::Emoticon,
}

#[derive(Clone, Copy, Debug, PartialEq, Eq, Structural)]
pub struct SvVoteClearOptions;

#[derive(Clone, Copy, Debug, PartialEq, Eq, Structural)]
pub struct SvVoteOptionListAdd;

#[derive(Clone, Copy, Debug)]
pub struct SvVoteOptionAdd<'a> {
    pub description: &'a [u8],
}

#[derive(Clone, Copy, Debug)]
pub struct SvVoteOptionRemove<'a> {
    pub description: &'a [u8],
}

#[derive(Clone, Copy, Debug)]
pub struct SvVoteSet<'a> {
    pub client_id: i32,
    pub type_: enums::Vote,
    pub timeout: i32,
    pub description: &'a [u8],
    pub reason: &'a [u8],
}

#[derive(Clone, Copy, Debug)]
pub struct SvVoteStatus {
    pub yes: i32,
    pub no: i32,
    pub pass: i32,
    pub total: i32,
}

#[derive(Clone, Copy, Debug)]
pub struct SvServerSettings {
    pub kick_vote: bool,
    pub kick_min: i32,
    pub spec_vote: bool,
    pub team_lock: bool,
    pub team_balance: bool,
    pub player_slots: i32,
}

#[derive(Clone, Copy, Debug)]
pub struct SvClientInfo<'a> {
    pub client_id: i32,
    pub local: bool,
    pub team: enums::Team,
    pub name: &'a [u8],
    pub clan: &'a [u8],
    pub country: i32,
    pub skin_part_names: [&'a [u8]; 6],
    pub use_custom_colors: [bool; 6],
    pub skin_part_colors: [i32; 6],
    pub silent: bool,
}

#[derive(Clone, Copy, Debug)]
pub struct SvGameInfo {
    pub game_flags: i32,
    pub score_limit: i32,
    pub time_limit: i32,
    pub match_num: i32,
    pub match_current: i32,
}

#[derive(Clone, Copy, Debug)]
pub struct SvClientDrop<'a> {
    pub client_id: i32,
    pub reason: &'a [u8],
    pub silent: bool,
}

#[derive(Clone, Copy, Debug, PartialEq, Eq, Structural)]
pub struct SvGameMsg;

#[derive(Clone, Copy, Debug)]
pub struct DeClientEnter<'a> {
    pub name: &'a [u8],
    pub client_id: i32,
    pub team: enums::Team,
}

#[derive(Clone, Copy, Debug)]
pub struct DeClientLeave<'a> {
    pub name: &'a [u8],
    pub client_id: i32,
    pub reason: &'a [u8],
}

#[derive(Clone, Copy, Debug)]
pub struct ClSay<'a> {
    pub mode: enums::Chat,
    pub target: i32,
    pub message: &'a [u8],
}

#[derive(Clone, Copy, Debug)]
pub struct ClSetTeam {
    pub team: enums::Team,
}

#[derive(Clone, Copy, Debug)]
pub struct ClSetSpectatorMode {
    pub spec_mode: enums::Spec,
    pub spectator_id: i32,
}

#[derive(Clone, Copy, Debug)]
pub struct ClStartInfo<'a> {
    pub name: &'a [u8],
    pub clan: &'a [u8],
    pub country: i32,
    pub skin_part_names: [&'a [u8]; 6],
    pub use_custom_colors: [bool; 6],
    pub skin_part_colors: [i32; 6],
}

#[derive(Clone, Copy, Debug, PartialEq, Eq, Structural)]
pub struct ClKill;

#[derive(Clone, Copy, Debug, PartialEq, Eq, Structural)]
pub struct ClReadyChange;

#[derive(Clone, Copy, Debug)]
pub struct ClEmoticon {
    pub emoticon: enums::Emoticon,
}

#[derive(Clone, Copy, Debug)]
pub struct ClVote {
    pub vote: i32,
}

#[derive(Clone, Copy, Debug)]
pub struct ClCallVote<'a> {
    pub type_: &'a [u8],
    pub value: &'a [u8],
    pub reason: &'a [u8],
    pub force: bool,
}

#[derive(Clone, Copy, Debug)]
pub struct SvSkinChange<'a> {
    pub client_id: i32,
    pub skin_part_names: [&'a [u8]; 6],
    pub use_custom_colors: [bool; 6],
    pub skin_part_colors: [i32; 6],
}

#[derive(Clone, Copy, Debug)]
pub struct ClSkinChange<'a> {
    pub skin_part_names: [&'a [u8]; 6],
    pub use_custom_colors: [bool; 6],
    pub skin_part_colors: [i32; 6],
}

#[derive(Clone, Copy, Debug)]
pub struct SvRaceFinish {
    pub client_id: i32,
    pub time: i32,
    pub diff: i32,
    pub record_personal: bool,
    pub record_server: bool,
}

#[derive(Clone, Copy, Debug)]
pub struct SvCheckpoint {
    pub diff: i32,
}

#[derive(Clone, Copy, Debug)]
pub struct SvCommandInfo<'a> {
    pub name: &'a [u8],
    pub args_format: &'a [u8],
    pub help_text: &'a [u8],
}

#[derive(Clone, Copy, Debug)]
pub struct SvCommandInfoRemove<'a> {
    pub name: &'a [u8],
}

#[derive(Clone, Copy, Debug)]
pub struct ClCommand<'a> {
    pub name: &'a [u8],
    pub arguments: &'a [u8],
}

#[derive(Clone, Copy, Debug)]
pub enum Game<'a> {
    SvMotd(SvMotd<'a>),
    SvBroadcast(SvBroadcast<'a>),
    SvChat(SvChat<'a>),
    SvTeam(SvTeam),
    SvKillMsg(SvKillMsg),
    SvTuneParams(SvTuneParams),
    SvExtraProjectile(SvExtraProjectile),
    SvReadyToEnter(SvReadyToEnter),
    SvWeaponPickup(SvWeaponPickup),
    SvEmoticon(SvEmoticon),
    SvVoteClearOptions(SvVoteClearOptions),
    SvVoteOptionListAdd(SvVoteOptionListAdd),
    SvVoteOptionAdd(SvVoteOptionAdd<'a>),
    SvVoteOptionRemove(SvVoteOptionRemove<'a>),
    SvVoteSet(SvVoteSet<'a>),
    SvVoteStatus(SvVoteStatus),
    SvServerSettings(SvServerSettings),
    SvClientInfo(SvClientInfo<'a>),
    SvGameInfo(SvGameInfo),
    SvClientDrop(SvClientDrop<'a>),
    SvGameMsg(SvGameMsg),
    DeClientEnter(DeClientEnter<'a>),
    DeClientLeave(DeClientLeave<'a>),
    ClSay(ClSay<'a>),
    ClSetTeam(ClSetTeam),
    ClSetSpectatorMode(ClSetSpectatorMode),
    ClStartInfo(ClStartInfo<'a>),
    ClKill(ClKill),
    ClReadyChange(ClReadyChange),
    ClEmoticon(ClEmoticon),
    ClVote(ClVote),
    ClCallVote(ClCallVote<'a>),
    SvSkinChange(SvSkinChange<'a>),
    ClSkinChange(ClSkinChange<'a>),
    SvRaceFinish(SvRaceFinish),
    SvCheckpoint(SvCheckpoint),
    SvCommandInfo(SvCommandInfo<'a>),
    SvCommandInfoRemove(SvCommandInfoRemove<'a>),
    ClCommand(ClCommand<'a>),
}

impl<'a> SvMotd<'a> {
    /// The fields of the message, in the order they are sent.
    pub open spec fn items(self) -> Seq<Item> {
        seq![Item::Str(self.message@)]
    }

    /// The kinds of the fields.
    pub open spec fn fields() -> Seq<Field> {
        seq![Field::Str]
    }

    /// The message can be sent: integers lie in their ranges and strings
    /// hold no NUL, sanitized ones no control characters.
    pub open spec fn valid(self) -> bool {
        &&& no_nul(self.message@)
    }

    fn from_values(v: &[Value<'a>]) -> (r: SvMotd<'a>)
        requires
            fits_msg(SvMotd::fields(), items_of(v@)),
        ensures
            r.items() == items_of(v@),
    {
        proof {
            crate::gamenet::msg::lemma_value_at(SvMotd::fields(), v@, 0);
        }
        let r = SvMotd {
            message: str_at(v, 0),
        };
        proof {
            assert(r.items() =~= items_of(v@));
        }
        r
    }

    /// Reads the message from `p`; a message read in full warns about
    /// bytes left over, which it consumes.
    pub fn decode(warns: &mut Vec<Warning>, p: &mut Unpacker<'a>) -> (r: Result<SvMotd<'a>, Error>)
        ensures
            decoded_msg(
                SvMotd::fields(),
                old(p)@,
                final(p)@,
                old(warns)@,
                final(warns)@,
                match r {
                    Ok(x) => Ok(x.items()),
                    Err(e) => Err(e),
                },
            ),
    {
        let fields: [Field; 1] = [Field::Str];
        proof {
            assert(fields@ =~= SvMotd::fields());
        }
        let v = match read_fields(warns, p, &fields) {
            Ok(v) => v,
            Err(e) => return Err(e),
        };
        let result = SvMotd::from_values(v.as_slice());
        p.finish(warns);
        Ok(result)
    }

    /// Writes the message into `p`; fails if it does not fit.
    pub fn encode(&self, p: Packer) -> (r: Result<Vec<u8>, CapacityError>)
        requires
            self.valid(),
        ensures
            (r is Ok) <==> p@.len() + encoding(self.items()).len() <= p.capacity(),
            r matches Ok(b) ==> b@ == p@ + encoding(self.items()),
    {
        let mut values: Vec<Value> = Vec::new();
        values.push(Value::Str(self.message));
        proof {
            assert(items_of(values@) =~= self.items());
            lemma_sv_motd_writable(*self);
        }
        let mut p = p;
        match write_values(&mut p, values.as_slice()) {
            Ok(()) => Ok(p.written()),
            Err(e) => Err(e),
        }
    }
}

/// A valid `SvMotd` fits its fields and its strings hold no NUL.
proof fn lemma_sv_motd_writable<'a>(x: SvMotd<'a>)
    requires
        x.valid(),
    ensures
        fits_msg(SvMotd::fields(), x.items()),
        writable(x.items()),
{
    assert forall|i: int| 0 <= i < 1 implies #[trigger] crate::gamenet::msg::accepts(SvMotd::fields()[i], x.items()[i]) && (x.items()[i] matches Item::Str(s) ==> no_nul(s)) by {
        if i == 0 {
            assert(x.items()[0] == Item::Str(x.message@));
        }
    }
}

/// Reading the encoding of a valid `SvMotd`, followed by anything, gives
/// back its fields without warnings, and no other `SvMotd` has the same
/// fields.
pub proof fn lemma_sv_motd_roundtrip<'a>(x: SvMotd<'a>, y: SvMotd<'a>, rest: Seq<u8>)
    requires
        x.valid(),
    ensures
        parse(SvMotd::fields(), encoding(x.items()) + rest) == (Ok::<Seq<Item>, Error>(x.items()), rest, Seq::<Warning>::empty()),
        y.items() == x.items() ==> y == x,
{
    lemma_sv_motd_writable(x);
    lemma_parse_encoding(SvMotd::fields(), x.items(), rest);
    if y.items() == x.items() {
        assert(y.items()[0] == x.items()[0]);
        assert(y.message =~= x.message);
    }
}

impl<'a> SvBroadcast<'a> {
    /// The fields of the message, in the order they are sent.
    pub open spec fn items(self) -> Seq<Item> {
        seq![Item::Str(self.message@)]
    }

    /// The kinds of the fields.
    pub open spec fn fields() -> Seq<Field> {
        seq![Field::Str]
    }

    /// The message can be sent: integers lie in their ranges and strings
    /// hold no NUL, sanitized ones no control characters.
    pub open spec fn valid(self) -> bool {
        &&& no_nul(self.message@)
    }

    fn from_values(v: &[Value<'a>]) -> (r: SvBroadcast<'a>)
        requires
            fits_msg(SvBroadcast::fields(), items_of(v@)),
        ensures
            r.items() == items_of(v@),
    {
        proof {
            crate::gamenet::msg::lemma_value_at(SvBroadcast::fields(), v@, 0);
        }
        let r = SvBroadcast {
            message: str_at(v, 0),
        };
        proof {
            assert(r.items() =~= items_of(v@));
        }
        r
    }

    /// Reads the message from `p`; a message read in full warns about
    /// bytes left over, which it consumes.
    pub fn decode(warns: &mut Vec<Warning>, p: &mut Unpacker<'a>) -> (r: Result<SvBroadcast<'a>, Error>)
        ensures
            decoded_msg(
                SvBroadcast::fields(),
                old(p)@,
                final(p)@,
                old(warns)@,
                final(warns)@,
                match r {
                    Ok(x) => Ok(x.items()),
                    Err(e) => Err(e),
                },
            ),
    {
        let fields: [Field; 1] = [Field::Str];
        proof {
            assert(fields@ =~= SvBroadcast::fields());
        }
        let v = match read_fields(warns, p, &fields) {
            Ok(v) => v,
            Err(e) => return Err(e),
        };
        let result = SvBroadcast::from_values(v.as_slice());
        p.finish(warns);
        Ok(result)
    }

    /// Writes the message into `p`; fails if it does not fit.
    pub fn encode(&self, p: Packer) -> (r: Result<Vec<u8>, CapacityError>)
        requires
            self.valid(),
        ensures
            (r is Ok) <==> p@.len() + encoding(self.items()).len() <= p.capacity(),
            r matches Ok(b) ==> b@ == p@ + encoding(self.items()),
    {
        let mut values: Vec<Value> = Vec::new();
        values.push(Value::Str(self.message));
        proof {
            assert(items_of(values@) =~= self.items());
            lemma_sv_broadcast_writable(*self);
        }
        let mut p = p;
        match write_values(&mut p, values.as_slice()) {
            Ok(()) => Ok(p.written()),
            Err(e) => Err(e),
        }
    }
}

/// A valid `SvBroadcast` fits its fields and its strings hold no NUL.
proof fn lemma_sv_broadcast_writable<'a>(x: SvBroadcast<'a>)
    requires
        x.valid(),
    ensures
        fits_msg(SvBroadcast::fields(), x.items()),
        writable(x.items()),
{
    assert forall|i: int| 0 <= i < 1 implies #[trigger] crate::gamenet::msg::accepts(SvBroadcast::fields()[i], x.items()[i]) && (x.items()[i] matches Item::Str(s) ==> no_nul(s)) by {
        if i == 0 {
            assert(x.items()[0] == Item::Str(x.message@));
        }
    }
}

/// Reading the encoding of a valid `SvBroadcast`, followed by anything, gives
/// back its fields without warnings, and no other `SvBroadcast` has the same
/// fields.
pub proof fn lemma_sv_broadcast_roundtrip<'a>(x: SvBroadcast<'a>, y: SvBroadcast<'a>, rest: Seq<u8>)
    requires
        x.valid(),
    ensures
        parse(SvBroadcast::fields(), encoding(x.items()) + rest) == (Ok::<Seq<Item>, Error>(x.items()), rest, Seq::<Warning>::empty()),
        y.items() == x.items() ==> y == x,
{
    lemma_sv_broadcast_writable(x);
    lemma_parse_encoding(SvBroadcast::fields(), x.items(), rest);
    if y.items() == x.items() {
        assert(y.items()[0] == x.items()[0]);
        assert(y.message =~= x.message);
    }
}

impl<'a> SvChat<'a> {
    /// The fields of the message, in the order they are sent.
    pub open spec fn items(self) -> Seq<Item> {
        seq![Item::Int(self.mode.value()), Item::Int(self.client_id), Item::Int(self.target_id), Item::Str(self.message@)]
    }

    /// The kinds of the fields.
    pub open spec fn fields() -> Seq<Field> {
        seq![Field::Int(0i32, 3i32), Field::Int(-1i32, 63i32), Field::Int(-1i32, 63i32), Field::Sanitized]
    }

    /// The message can be sent: integers lie in their ranges and strings
    /// hold no NUL, sanitized ones no control characters.
    pub open spec fn valid(self) -> bool {
        &&& -1i32 <= self.client_id && self.client_id <= 63i32
        &&& -1i32 <= self.target_id && self.target_id <= 63i32
        &&& no_control(self.message@)
    }

    fn from_values(v: &[Value<'a>]) -> (r: SvChat<'a>)
        requires
            fits_msg(SvChat::fields(), items_of(v@)),
        ensures
            r.items() == items_of(v@),
    {
        proof {
            crate::gamenet::msg::lemma_value_at(SvChat::fields(), v@, 0);
            crate::gamenet::msg::lemma_value_at(SvChat::fields(), v@, 1);
            crate::gamenet::msg::lemma_value_at(SvChat::fields(), v@, 2);
            crate::gamenet::msg::lemma_value_at(SvChat::fields(), v@, 3);
        }
        let e0 = int_at(v, 0);
        let mode = match enums::Chat::from_i32(e0) {
            Ok(e) => e,
            Err(_) => {
                proof {
                    assert(false);
                }
                enums::Chat::None_
            },
        };
        proof {
            enums::lemma_chat_values(mode, e0);
        }
        let r = SvChat {
            mode,
            client_id: int_at(v, 1),
            target_id: int_at(v, 2),
            message: str_at(v, 3),
        };
        proof {
            assert(r.items() =~= items_of(v@));
        }
        r
    }

    /// Reads the message from `p`; a message read in full warns about
    /// bytes left over, which it consumes.
    pub fn decode(warns: &mut Vec<Warning>, p: &mut Unpacker<'a>) -> (r: Result<SvChat<'a>, Error>)
        ensures
            decoded_msg(
                SvChat::fields(),
                old(p)@,
                final(p)@,
                old(warns)@,
                final(warns)@,
                match r {
                    Ok(x) => Ok(x.items()),
                    Err(e) => Err(e),
                },
            ),
    {
        let fields: [Field; 4] = [Field::Int(0i32, 3i32), Field::Int(-1i32, 63i32), Field::Int(-1i32, 63i32), Field::Sanitized];
        proof {
            assert(fields@ =~= SvChat::fields());
        }
        let v = match read_fields(warns, p, &fields) {
            Ok(v) => v,
            Err(e) => return Err(e),
        };
        let result = SvChat::from_values(v.as_slice());
        p.finish(warns);
        Ok(result)
    }

    /// Writes the message into `p`; fails if it does not fit.
    pub fn encode(&self, p: Packer) -> (r: Result<Vec<u8>, CapacityError>)
        requires
            self.valid(),
        ensures
            (r is Ok) <==> p@.len() + encoding(self.items()).len() <= p.capacity(),
            r matches Ok(b) ==> b@ == p@ + encoding(self.items()),
    {
        let mut values: Vec<Value> = Vec::new();
        values.push(Value::Int(self.mode.to_i32()));
        values.push(Value::Int(self.client_id));
        values.push(Value::Int(self.target_id));
        values.push(Value::Str(self.message));
        proof {
            assert(items_of(values@) =~= self.items());
            lemma_sv_chat_writable(*self);
        }
        let mut p = p;
        match write_values(&mut p, values.as_slice()) {
            Ok(()) => Ok(p.written()),
            Err(e) => Err(e),
        }
    }
}

/// A valid `SvChat` fits its fields and its strings hold no NUL.
proof fn lemma_sv_chat_writable<'a>(x: SvChat<'a>)
    requires
        x.valid(),
    ensures
        fits_msg(SvChat::fields(), x.items()),
        writable(x.items()),
{
    enums::lemma_chat_values(x.mode, 0);
    assert forall|i: int| 0 <= i < 4 implies #[trigger] crate::gamenet::msg::accepts(SvChat::fields()[i], x.items()[i]) && (x.items()[i] matches Item::Str(s) ==> no_nul(s)) by {
        if i == 0 {
            assert(x.items()[0] == Item::Int(x.mode.value()));
        } else if i == 1 {
            assert(x.items()[1] == Item::Int(x.client_id));
        } else if i == 2 {
            assert(x.items()[2] == Item::Int(x.target_id));
        } else if i == 3 {
            assert(x.items()[3] == Item::Str(x.message@));
            crate::gamenet::msg::lemma_no_control_no_nul(x.message@);
        }
    }
}

/// Reading the encoding of a valid `SvChat`, followed by anything, gives
/// back its fields without warnings, and no other `SvChat` has the same
/// fields.
pub proof fn lemma_sv_chat_roundtrip<'a>(x: SvChat<'a>, y: SvChat<'a>, rest: Seq<u8>)
    requires
        x.valid(),
    ensures
        parse(SvChat::fields(), encoding(x.items()) + rest) == (Ok::<Seq<Item>, Error>(x.items()), rest, Seq::<Warning>::empty()),
        y.items() == x.items() ==> y == x,
{
    lemma_sv_chat_writable(x);
    lemma_parse_encoding(SvChat::fields(), x.items(), rest);
    if y.items() == x.items() {
        assert(y.items()[0] == x.items()[0]);
        enums::lemma_chat_values(x.mode, 0);
        enums::lemma_chat_values(y.mode, 0);
        assert(y.items()[1] == x.items()[1]);
        assert(y.items()[2] == x.items()[2]);
        assert(y.items()[3] == x.items()[3]);
        assert(y.message =~= x.message);
    }
}

impl SvTeam {
    /// The fields of the message, in the order they are sent.
    pub open spec fn items(self) -> Seq<Item> {
        seq![Item::Int(self.client_id), Item::Int(self.team.value()), Item::Int(bool_int(self.silent)), Item::Int(self.cooldown_tick.0)]
    }

    /// The kinds of the fields.
    pub open spec fn fields() -> Seq<Field> {
        seq![Field::Int(-1i32, 63i32), Field::Int(-1i32, 1i32), Field::Int(0i32, 1i32), Field::Int(i32::MIN, i32::MAX)]
    }

    /// The message can be sent: integers lie in their ranges and strings
    /// hold no NUL, sanitized ones no control characters.
    pub open spec fn valid(self) -> bool {
        &&& -1i32 <= self.client_id && self.client_id <= 63i32
    }

    fn from_values(v: &[Value]) -> (r: SvTeam)
        requires
            fits_msg(SvTeam::fields(), items_of(v@)),
        ensures
            r.items() == items_of(v@),
    {
        proof {
            crate::gamenet::msg::lemma_value_at(SvTeam::fields(), v@, 0);
            crate::gamenet::msg::lemma_value_at(SvTeam::fields(), v@, 1);
            crate::gamenet::msg::lemma_value_at(SvTeam::fields(), v@, 2);
            crate::gamenet::msg::lemma_value_at(SvTeam::fields(), v@, 3);
        }
        let e1 = int_at(v, 1);
        let team = match enums::Team::from_i32(e1) {
            Ok(e) => e,
            Err(_) => {
                proof {
                    assert(false);
                }
                enums::Team::Spectators
            },
        };
        proof {
            enums::lemma_team_values(team, e1);
        }
        let r = SvTeam {
            client_id: int_at(v, 0),
            team,
            silent: int_at(v, 2) != 0,
            cooldown_tick: Tick(int_at(v, 3)),
        };
        proof {
            assert(r.items() =~= items_of(v@));
        }
        r
    }

    /// Reads the message from `p`; a message read in full warns about
    /// bytes left over, which it consumes.
    pub fn decode(warns: &mut Vec<Warning>, p: &mut Unpacker) -> (r: Result<SvTeam, Error>)
        ensures
            decoded_msg(
                SvTeam::fields(),
                old(p)@,
                final(p)@,
                old(warns)@,
                final(warns)@,
                match r {
                    Ok(x) => Ok(x.items()),
                    Err(e) => Err(e),
                },
            ),
    {
        let fields: [Field; 4] = [Field::Int(-1i32, 63i32), Field::Int(-1i32, 1i32), Field::Int(0i32, 1i32), Field::Int(i32::MIN, i32::MAX)];
        proof {
            assert(fields@ =~= SvTeam::fields());
        }
        let v = match read_fields(warns, p, &fields) {
            Ok(v) => v,
            Err(e) => return Err(e),
        };
        let result = SvTeam::from_values(v.as_slice());
        p.finish(warns);
        Ok(result)
    }

    /// Writes the message into `p`; fails if it does not fit.
    pub fn encode(&self, p: Packer) -> (r: Result<Vec<u8>, CapacityError>)
        requires
            self.valid(),
        ensures
            (r is Ok) <==> p@.len() + encoding(self.items()).len() <= p.capacity(),
            r matches Ok(b) ==> b@ == p@ + encoding(self.items()),
    {
        let mut values: Vec<Value> = Vec::new();
        values.push(Value::Int(self.client_id));
        values.push(Value::Int(self.team.to_i32()));
        values.push(Value::Int(if self.silent { 1 } else { 0 }));
        values.push(Value::Int(self.cooldown_tick.0));
        proof {
            assert(items_of(values@) =~= self.items());
            lemma_sv_team_writable(*self);
        }
        let mut p = p;
        match write_values(&mut p, values.as_slice()) {
            Ok(()) => Ok(p.written()),
            Err(e) => Err(e),
        }
    }
}

/// A valid `SvTeam` fits its fields and its strings hold no NUL.
proof fn lemma_sv_team_writable(x: SvTeam)
    requires
        x.valid(),
    ensures
        fits_msg(SvTeam::fields(), x.items()),
        writable(x.items()),
{
    enums::lemma_team_values(x.team, 0);
    assert forall|i: int| 0 <= i < 4 implies #[trigger] crate::gamenet::msg::accepts(SvTeam::fields()[i], x.items()[i]) && (x.items()[i] matches Item::Str(s) ==> no_nul(s)) by {
        if i == 0 {
            assert(x.items()[0] == Item::Int(x.client_id));
        } else if i == 1 {
            assert(x.items()[1] == Item::Int(x.team.value()));
        } else if i == 2 {
            assert(x.items()[2] == Item::Int(bool_int(x.silent)));
        } else if i == 3 {
            assert(x.items()[3] == Item::Int(x.cooldown_tick.0));
        }
    }
}

/// Reading the encoding of a valid `SvTeam`, followed by anything, gives
/// back its fields without warnings, and no other `SvTeam` has the same
/// fields.
pub proof fn lemma_sv_team_roundtrip(x: SvTeam, y: SvTeam, rest: Seq<u8>)
    requires
        x.valid(),
    ensures
        parse(SvTeam::fields(), encoding(x.items()) + rest) == (Ok::<Seq<Item>, Error>(x.items()), rest, Seq::<Warning>::empty()),
        y.items() == x.items() ==> y == x,
{
    lemma_sv_team_writable(x);
    lemma_parse_encoding(SvTeam::fields(), x.items(), rest);
    if y.items() == x.items() {
        assert(y.items()[0] == x.items()[0]);
        assert(y.items()[1] == x.items()[1]);
        enums::lemma_team_values(x.team, 0);
        enums::lemma_team_values(y.team, 0);
        assert(y.items()[2] == x.items()[2]);
        assert(y.items()[3] == x.items()[3]);
    }
}

impl SvKillMsg {
    /// The fields of the message, in the order they are sent.
    pub open spec fn items(self) -> Seq<Item> {
        seq![Item::Int(self.killer), Item::Int(self.victim), Item::Int(self.weapon), Item::Int(self.mode_special)]
    }

    /// The kinds of the fields.
    pub open spec fn fields() -> Seq<Field> {
        seq![Field::Int(-2i32, 63i32), Field::Int(0i32, 63i32), Field::Int(-3i32, 5i32), Field::Int(i32::MIN, i32::MAX)]
    }

    /// The message can be sent: integers lie in their ranges and strings
    /// hold no NUL, sanitized ones no control characters.
    pub open spec fn valid(self) -> bool {
        &&& -2i32 <= self.killer && self.killer <= 63i32
        &&& 0i32 <= self.victim && self.victim <= 63i32
        &&& -3i32 <= self.weapon && self.weapon <= 5i32
    }

    fn from_values(v: &[Value]) -> (r: SvKillMsg)
        requires
            fits_msg(SvKillMsg::fields(), items_of(v@)),
        ensures
            r.items() == items_of(v@),
    {
        proof {
            crate::gamenet::msg::lemma_value_at(SvKillMsg::fields(), v@, 0);
            crate::gamenet::msg::lemma_value_at(SvKillMsg::fields(), v@, 1);
            crate::gamenet::msg::lemma_value_at(SvKillMsg::fields(), v@, 2);
            crate::gamenet::msg::lemma_value_at(SvKillMsg::fields(), v@, 3);
        }
        let r = SvKillMsg {
            killer: int_at(v, 0),
            victim: int_at(v, 1),
            weapon: int_at(v, 2),
            mode_special: int_at(v, 3),
        };
        proof {
            assert(r.items() =~= items_of(v@));
        }
        r
    }

    /// Reads the message from `p`; a message read in full warns about
    /// bytes left over, which it consumes.
    pub fn decode(warns: &mut Vec<Warning>, p: &mut Unpacker) -> (r: Result<SvKillMsg, Error>)
        ensures
            decoded_msg(
                SvKillMsg::fields(),
                old(p)@,
                final(p)@,
                old(warns)@,
                final(warns)@,
                match r {
                    Ok(x) => Ok(x.items()),
                    Err(e) => Err(e),
                },
            ),
    {
        let fields: [Field; 4] = [Field::Int(-2i32, 63i32), Field::Int(0i32, 63i32), Field::Int(-3i32, 5i32), Field::Int(i32::MIN, i32::MAX)];
        proof {
            assert(fields@ =~= SvKillMsg::fields());
        }
        let v = match read_fields(warns, p, &fields) {
            Ok(v) => v,
            Err(e) => return Err(e),
        };
        let result = SvKillMsg::from_values(v.as_slice());
        p.finish(warns);
        Ok(result)
    }

    /// Writes the message into `p`; fails if it does not fit.
    pub fn encode(&self, p: Packer) -> (r: Result<Vec<u8>, CapacityError>)
        requires
            self.valid(),
        ensures
            (r is Ok) <==> p@.len() + encoding(self.items()).len() <= p.capacity(),
            r matches Ok(b) ==> b@ == p@ + encoding(self.items()),
    {
        let mut values: Vec<Value> = Vec::new();
        values.push(Value::Int(self.killer));
        values.push(Value::Int(self.victim));
        values.push(Value::Int(self.weapon));
        values.push(Value::Int(self.mode_special));
        proof {
            assert(items_of(values@) =~= self.items());
            lemma_sv_kill_msg_writable(*self);
        }
        let mut p = p;
        match write_values(&mut p, values.as_slice()) {
            Ok(()) => Ok(p.written()),
            Err(e) => Err(e),
        }
    }
}

/// A valid `SvKillMsg` fits its fields and its strings hold no NUL.
proof fn lemma_sv_kill_msg_writable(x: SvKillMsg)
    requires
        x.valid(),
    ensures
        fits_msg(SvKillMsg::fields(), x.items()),
        writable(x.items()),
{
    assert forall|i: int| 0 <= i < 4 implies #[trigger] crate::gamenet::msg::accepts(SvKillMsg::fields()[i], x.items()[i]) && (x.items()[i] matches Item::Str(s) ==> no_nul(s)) by {
        if i == 0 {
            assert(x.items()[0] == Item::Int(x.killer));
        } else if i == 1 {
            assert(x.items()[1] == Item::Int(x.victim));
        } else if i == 2 {
            assert(x.items()[2] == Item::Int(x.weapon));
        } else if i == 3 {
            assert(x.items()[3] == Item::Int(x.mode_special));
        }
    }
}

/// Reading the encoding of a valid `SvKillMsg`, followed by anything, gives
/// back its fields without warnings, and no other `SvKillMsg` has the same
/// fields.
pub proof fn lemma_sv_kill_msg_roundtrip(x: SvKillMsg, y: SvKillMsg, rest: Seq<u8>)
    requires
        x.valid(),
    ensures
        parse(SvKillMsg::fields(), encoding(x.items()) + rest) == (Ok::<Seq<Item>, Error>(x.items()), rest, Seq::<Warning>::empty()),
        y.items() == x.items() ==> y == x,
{
    lemma_sv_kill_msg_writable(x);
    lemma_parse_encoding(SvKillMsg::fields(), x.items(), rest);
    if y.items() == x.items() {
        assert(y.items()[0] == x.items()[0]);
        assert(y.items()[1] == x.items()[1]);
        assert(y.items()[2] == x.items()[2]);
        assert(y.items()[3] == x.items()[3]);
    }
}

impl SvTuneParams {
    /// The fields of the message, in the order they are sent.
    pub open spec fn items(self) -> Seq<Item> {
        seq![Item::Int(self.ground_control_speed.0), Item::Int(self.ground_control_accel.0), Item::Int(self.ground_friction.0), Item::Int(self.ground_jump_impulse.0), Item::Int(self.air_jump_impulse.0), Item::Int(self.air_control_speed.0), Item::Int(self.air_control_accel.0), Item::Int(self.air_friction.0), Item::Int(self.hook_length.0), Item::Int(self.hook_fire_speed.0), Item::Int(self.hook_drag_accel.0), Item::Int(self.hook_drag_speed.0), Item::Int(self.gravity.0), Item::Int(self.velramp_start.0), Item::Int(self.velramp_range.0), Item::Int(self.velramp_curvature.0), Item::Int(self.gun_curvature.0), Item::Int(self.gun_speed.0), Item::Int(self.gun_lifetime.0), Item::Int(self.shotgun_curvature.0), Item::Int(self.shotgun_speed.0), Item::Int(self.shotgun_speeddiff.0), Item::Int(self.shotgun_lifetime.0), Item::Int(self.grenade_curvature.0), Item::Int(self.grenade_speed.0), Item::Int(self.grenade_lifetime.0), Item::Int(self.laser_reach.0), Item::Int(self.laser_bounce_delay.0), Item::Int(self.laser_bounce_num.0), Item::Int(self.laser_bounce_cost.0), Item::Int(self.player_collision.0), Item::Int(self.player_hooking.0)]
    }

    /// The kinds of the fields.
    pub open spec fn fields() -> Seq<Field> {
        seq![Field::Int(i32::MIN, i32::MAX), Field::Int(i32::MIN, i32::MAX), Field::Int(i32::MIN, i32::MAX), Field::Int(i32::MIN, i32::MAX), Field::Int(i32::MIN, i32::MAX), Field::Int(i32::MIN, i32::MAX), Field::Int(i32::MIN, i32::MAX), Field::Int(i32::MIN, i32::MAX), Field::Int(i32::MIN, i32::MAX), Field::Int(i32::MIN, i32::MAX), Field::Int(i32::MIN, i32::MAX), Field::Int(i32::MIN, i32::MAX), Field::Int(i32::MIN, i32::MAX), Field::Int(i32::MIN, i32::MAX), Field::Int(i32::MIN, i32::MAX), Field::Int(i32::MIN, i32::MAX), Field::Int(i32::MIN, i32::MAX), Field::Int(i32::MIN, i32::MAX), Field::Int(i32::MIN, i32::MAX), Field::Int(i32::MIN, i32::MAX), Field::Int(i32::MIN, i32::MAX), Field::Int(i32::MIN, i32::MAX), Field::Int(i32::MIN, i32::MAX), Field::Int(i32::MIN, i32::MAX), Field::Int(i32::MIN, i32::MAX), Field::Int(i32::MIN, i32::MAX), Field::Int(i32::MIN, i32::MAX), Field::Int(i32::MIN, i32::MAX), Field::Int(i32::MIN, i32::MAX), Field::Int(i32::MIN, i32::MAX), Field::Int(i32::MIN, i32::MAX), Field::Int(i32::MIN, i32::MAX)]
    }

    /// The message can be sent: integers lie in their ranges and strings
    /// hold no NUL, sanitized ones no control characters.
    pub open spec fn valid(self) -> bool {
        true
    }

    #[verifier::spinoff_prover]
    #[verifier::rlimit(100)]
    fn from_values(v: &[Value]) -> (r: SvTuneParams)
        requires
            fits_msg(SvTuneParams::fields(), items_of(v@)),
        ensures
            r.items() == items_of(v@),
    {
        proof {
            crate::gamenet::msg::lemma_value_at(SvTuneParams::fields(), v@, 0);
            crate::gamenet::msg::lemma_value_at(SvTuneParams::fields(), v@, 1);
            crate::gamenet::msg::lemma_value_at(SvTuneParams::fields(), v@, 2);
            crate::gamenet::msg::lemma_value_at(SvTuneParams::fields(), v@, 3);
            crate::gamenet::msg::lemma_value_at(SvTuneParams::fields(), v@, 4);
            crate::gamenet::msg::lemma_value_at(SvTuneParams::fields(), v@, 5);
            crate::gamenet::msg::lemma_value_at(SvTuneParams::fields(), v@, 6);
            crate::gamenet::msg::lemma_value_at(SvTuneParams::fields(), v@, 7);
            crate::gamenet::msg::lemma_value_at(SvTuneParams::fields(), v@, 8);
            crate::gamenet::msg::lemma_value_at(SvTuneParams::fields(), v@, 9);
            crate::gamenet::msg::lemma_value_at(SvTuneParams::fields(), v@, 10);
            crate::gamenet::msg::lemma_value_at(SvTuneParams::fields(), v@, 11);
            crate::gamenet::msg::lemma_value_at(SvTuneParams::fields(), v@, 12);
            crate::gamenet::msg::lemma_value_at(SvTuneParams::fields(), v@, 13);
            crate::gamenet::msg::lemma_value_at(SvTuneParams::fields(), v@, 14);
            crate::gamenet::msg::lemma_value_at(SvTuneParams::fields(), v@, 15);
            crate::gamenet::msg::lemma_value_at(SvTuneParams::fields(), v@, 16);
            crate::gamenet::msg::lemma_value_at(SvTuneParams::fields(), v@, 17);
            crate::gamenet::msg::lemma_value_at(SvTuneParams::fields(), v@, 18);
            crate::gamenet::msg::lemma_value_at(SvTuneParams::fields(), v@, 19);
            crate::gamenet::msg::lemma_value_at(SvTuneParams::fields(), v@, 20);
            crate::gamenet::msg::lemma_value_at(SvTuneParams::fields(), v@, 21);
            crate::gamenet::msg::lemma_value_at(SvTuneParams::fields(), v@, 22);
            crate::gamenet::msg::lemma_value_at(SvTuneParams::fields(), v@, 23);
            crate::gamenet::msg::lemma_value_at(SvTuneParams::fields(), v@, 24);
            crate::gamenet::msg::lemma_value_at(SvTuneParams::fields(), v@, 25);
            crate::gamenet::msg::lemma_value_at(SvTuneParams::fields(), v@, 26);
            crate::gamenet::msg::lemma_value_at(SvTuneParams::fields(), v@, 27);
            crate::gamenet::msg::lemma_value_at(SvTuneParams::fields(), v@, 28);
            crate::gamenet::msg::lemma_value_at(SvTuneParams::fields(), v@, 29);
            crate::gamenet::msg::lemma_value_at(SvTuneParams::fields(), v@, 30);
            crate::gamenet::msg::lemma_value_at(SvTuneParams::fields(), v@, 31);
        }
        let r = SvTuneParams {
            ground_control_speed: TuneParam(int_at(v, 0)),
            ground_control_accel: TuneParam(int_at(v, 1)),
            ground_friction: TuneParam(int_at(v, 2)),
            ground_jump_impulse: TuneParam(int_at(v, 3)),
            air_jump_impulse: TuneParam(int_at(v, 4)),
            air_control_speed: TuneParam(int_at(v, 5)),
            air_control_accel: TuneParam(int_at(v, 6)),
            air_friction: TuneParam(int_at(v, 7)),
            hook_length: TuneParam(int_at(v, 8)),
            hook_fire_speed: TuneParam(int_at(v, 9)),
            hook_drag_accel: TuneParam(int_at(v, 10)),
            hook_drag_speed: TuneParam(int_at(v, 11)),
            gravity: TuneParam(int_at(v, 12)),
            velramp_start: TuneParam(int_at(v, 13)),
            velramp_range: TuneParam(int_at(v, 14)),
            velramp_curvature: TuneParam(int_at(v, 15)),
            gun_curvature: TuneParam(int_at(v, 16)),
            gun_speed: TuneParam(int_at(v, 17)),
            gun_lifetime: TuneParam(int_at(v, 18)),
            shotgun_curvature: TuneParam(int_at(v, 19)),
            shotgun_speed: TuneParam(int_at(v, 20)),
            shotgun_speeddiff: TuneParam(int_at(v, 21)),
            shotgun_lifetime: TuneParam(int_at(v, 22)),
            grenade_curvature: TuneParam(int_at(v, 23)),
            grenade_speed: TuneParam(int_at(v, 24)),
            grenade_lifetime: TuneParam(int_at(v, 25)),
            laser_reach: TuneParam(int_at(v, 26)),
            laser_bounce_delay: TuneParam(int_at(v, 27)),
            laser_bounce_num: TuneParam(int_at(v, 28)),
            laser_bounce_cost: TuneParam(int_at(v, 29)),
            player_collision: TuneParam(int_at(v, 30)),
            player_hooking: TuneParam(int_at(v, 31)),
        };
        proof {
            assert(r.items() =~= items_of(v@));
        }
        r
    }

    /// Reads the message from `p`; a message read in full warns about
    /// bytes left over, which it consumes.
    pub fn decode(warns: &mut Vec<Warning>, p: &mut Unpacker) -> (r: Result<SvTuneParams, Error>)
        ensures
            decoded_msg(
                SvTuneParams::fields(),
                old(p)@,
                final(p)@,
                old(warns)@,
                final(warns)@,
                match r {
                    Ok(x) => Ok(x.items()),
                    Err(e) => Err(e),
                },
            ),
    {
        let fields: [Field; 32] = [Field::Int(i32::MIN, i32::MAX), Field::Int(i32::MIN, i32::MAX), Field::Int(i32::MIN, i32::MAX), Field::Int(i32::MIN, i32::MAX), Field::Int(i32::MIN, i32::MAX), Field::Int(i32::MIN, i32::MAX), Field::Int(i32::MIN, i32::MAX), Field::Int(i32::MIN, i32::MAX), Field::Int(i32::MIN, i32::MAX), Field::Int(i32::MIN, i32::MAX), Field::Int(i32::MIN, i32::MAX), Field::Int(i32::MIN, i32::MAX), Field::Int(i32::MIN, i32::MAX), Field::Int(i32::MIN, i32::MAX), Field::Int(i32::MIN, i32::MAX), Field::Int(i32::MIN, i32::MAX), Field::Int(i32::MIN, i32::MAX), Field::Int(i32::MIN, i32::MAX), Field::Int(i32::MIN, i32::MAX), Field::Int(i32::MIN, i32::MAX), Field::Int(i32::MIN, i32::MAX), Field::Int(i32::MIN, i32::MAX), Field::Int(i32::MIN, i32::MAX), Field::Int(i32::MIN, i32::MAX), Field::Int(i32::MIN, i32::MAX), Field::Int(i32::MIN, i32::MAX), Field::Int(i32::MIN, i32::MAX), Field::Int(i32::MIN, i32::MAX), Field::Int(i32::MIN, i32::MAX), Field::Int(i32::MIN, i32::MAX), Field::Int(i32::MIN, i32::MAX), Field::Int(i32::MIN, i32::MAX)];
        proof {
            assert(fields@ =~= SvTuneParams::fields());
        }
        let v = match read_fields(warns, p, &fields) {
            Ok(v) => v,
            Err(e) => return Err(e),
        };
        let result = SvTuneParams::from_values(v.as_slice());
        p.finish(warns);
        Ok(result)
    }

    /// Writes the message into `p`; fails if it does not fit.
    #[verifier::spinoff_prover]
    #[verifier::rlimit(100)]
    pub fn encode(&self, p: Packer) -> (r: Result<Vec<u8>, CapacityError>)
        ensures
            (r is Ok) <==> p@.len() + encoding(self.items()).len() <= p.capacity(),
            r matches Ok(b) ==> b@ == p@ + encoding(self.items()),
    {
        let mut values: Vec<Value> = Vec::new();
        values.push(Value::Int(self.ground_control_speed.0));
        values.push(Value::Int(self.ground_control_accel.0));
        values.push(Value::Int(self.ground_friction.0));
        values.push(Value::Int(self.ground_jump_impulse.0));
        values.push(Value::Int(self.air_jump_impulse.0));
        values.push(Value::Int(self.air_control_speed.0));
        values.push(Value::Int(self.air_control_accel.0));
        values.push(Value::Int(self.air_friction.0));
        values.push(Value::Int(self.hook_length.0));
        values.push(Value::Int(self.hook_fire_speed.0));
        values.push(Value::Int(self.hook_drag_accel.0));
        values.push(Value::Int(self.hook_drag_speed.0));
        values.push(Value::Int(self.gravity.0));
        values.push(Value::Int(self.velramp_start.0));
        values.push(Value::Int(self.velramp_range.0));
        values.push(Value::Int(self.velramp_curvature.0));
        values.push(Value::Int(self.gun_curvature.0));
        values.push(Value::Int(self.gun_speed.0));
        values.push(Value::Int(self.gun_lifetime.0));
        values.push(Value::Int(self.shotgun_curvature.0));
        values.push(Value::Int(self.shotgun_speed.0));
        values.push(Value::Int(self.shotgun_speeddiff.0));
        values.push(Value::Int(self.shotgun_lifetime.0));
        values.push(Value::Int(self.grenade_curvature.0));
        values.push(Value::Int(self.grenade_speed.0));
        values.push(Value::Int(self.grenade_lifetime.0));
        values.push(Value::Int(self.laser_reach.0));
        values.push(Value::Int(self.laser_bounce_delay.0));
        values.push(Value::Int(self.laser_bounce_num.0));
        values.push(Value::Int(self.laser_bounce_cost.0));
        values.push(Value::Int(self.player_collision.0));
        values.push(Value::Int(self.player_hooking.0));
        proof {
            assert(items_of(values@) =~= self.items());
            lemma_sv_tune_params_writable(*self);
        }
        let mut p = p;
        match write_values(&mut p, values.as_slice()) {
            Ok(()) => Ok(p.written()),
            Err(e) => Err(e),
        }
    }
}

/// A valid `SvTuneParams` fits its fields and its strings hold no NUL.
#[verifier::spinoff_prover]
#[verifier::rlimit(100)]
proof fn lemma_sv_tune_params_writable(x: SvTuneParams)
    requires
        x.valid(),
    ensures
        fits_msg(SvTuneParams::fields(), x.items()),
        writable(x.items()),
{
    assert forall|i: int| 0 <= i < 32 implies #[trigger] crate::gamenet::msg::accepts(SvTuneParams::fields()[i], x.items()[i]) && (x.items()[i] matches Item::Str(s) ==> no_nul(s)) by {
        if i == 0 {
            assert(x.items()[0] == Item::Int(x.ground_control_speed.0));
        } else if i == 1 {
            assert(x.items()[1] == Item::Int(x.ground_control_accel.0));
        } else if i == 2 {
            assert(x.items()[2] == Item::Int(x.ground_friction.0));
        } else if i == 3 {
            assert(x.items()[3] == Item::Int(x.ground_jump_impulse.0));
        } else if i == 4 {
            assert(x.items()[4] == Item::Int(x.air_jump_impulse.0));
        } else if i == 5 {
            assert(x.items()[5] == Item::Int(x.air_control_speed.0));
        } else if i == 6 {
            assert(x.items()[6] == Item::Int(x.air_control_accel.0));
        } else if i == 7 {
            assert(x.items()[7] == Item::Int(x.air_friction.0));
        } else if i == 8 {
            assert(x.items()[8] == Item::Int(x.hook_length.0));
        } else if i == 9 {
            assert(x.items()[9] == Item::Int(x.hook_fire_speed.0));
        } else if i == 10 {
            assert(x.items()[10] == Item::Int(x.hook_drag_accel.0));
        } else if i == 11 {
            assert(x.items()[11] == Item::Int(x.hook_drag_speed.0));
        } else if i == 12 {
            assert(x.items()[12] == Item::Int(x.gravity.0));
        } else if i == 13 {
            assert(x.items()[13] == Item::Int(x.velramp_start.0));
        } else if i == 14 {
            assert(x.items()[14] == Item::Int(x.velramp_range.0));
        } else if i == 15 {
            assert(x.items()[15] == Item::Int(x.velramp_curvature.0));
        } else if i == 16 {
            assert(x.items()[16] == Item::Int(x.gun_curvature.0));
        } else if i == 17 {
            assert(x.items()[17] == Item::Int(x.gun_speed.0));
        } else if i == 18 {
            assert(x.items()[18] == Item::Int(x.gun_lifetime.0));
        } else if i == 19 {
            assert(x.items()[19] == Item::Int(x.shotgun_curvature.0));
        } else if i == 20 {
            assert(x.items()[20] == Item::Int(x.shotgun_speed.0));
        } else if i == 21 {
            assert(x.items()[21] == Item::Int(x.shotgun_speeddiff.0));
        } else if i == 22 {
            assert(x.items()[22] == Item::Int(x.shotgun_lifetime.0));
        } else if i == 23 {
            assert(x.items()[23] == Item::Int(x.grenade_curvature.0));
        } else if i == 24 {
            assert(x.items()[24] == Item::Int(x.grenade_speed.0));
        } else if i == 25 {
            assert(x.items()[25] == Item::Int(x.grenade_lifetime.0));
        } else if i == 26 {
            assert(x.items()[26] == Item::Int(x.laser_reach.0));
        } else if i == 27 {
            assert(x.items()[27] == Item::Int(x.laser_bounce_delay.0));
        } else if i == 28 {
            assert(x.items()[28] == Item::Int(x.laser_bounce_num.0));
        } else if i == 29 {
            assert(x.items()[29] == Item::Int(x.laser_bounce_cost.0));
        } else if i == 30 {
            assert(x.items()[30] == Item::Int(x.player_collision.0));
        } else if i == 31 {
            assert(x.items()[31] == Item::Int(x.player_hooking.0));
        }
    }
}

/// Reading the encoding of a valid `SvTuneParams`, followed by anything, gives
/// back its fields without warnings, and no other `SvTuneParams` has the same
/// fields.
#[verifier::spinoff_prover]
#[verifier::rlimit(100)]
pub proof fn lemma_sv_tune_params_roundtrip(x: SvTuneParams, y: SvTuneParams, rest: Seq<u8>)
    requires
        x.valid(),
    ensures
        parse(SvTuneParams::fields(), encoding(x.items()) + rest) == (Ok::<Seq<Item>, Error>(x.items()), rest, Seq::<Warning>::empty()),
        y.items() == x.items() ==> y == x,
{
    lemma_sv_tune_params_writable(x);
    lemma_parse_encoding(SvTuneParams::fields(), x.items(), rest);
    if y.items() == x.items() {
        assert(y.items()[0] == x.items()[0]);
        assert(y.items()[1] == x.items()[1]);
        assert(y.items()[2] == x.items()[2]);
        assert(y.items()[3] == x.items()[3]);
        assert(y.items()[4] == x.items()[4]);
        assert(y.items()[5] == x.items()[5]);
        assert(y.items()[6] == x.items()[6]);
        assert(y.items()[7] == x.items()[7]);
        assert(y.items()[8] == x.items()[8]);
        assert(y.items()[9] == x.items()[9]);
        assert(y.items()[10] == x.items()[10]);
        assert(y.items()[11] == x.items()[11]);
        assert(y.items()[12] == x.items()[12]);
        assert(y.items()[13] == x.items()[13]);
        assert(y.items()[14] == x.items()[14]);
        assert(y.items()[15] == x.items()[15]);
        assert(y.items()[16] == x.items()[16]);
        assert(y.items()[17] == x.items()[17]);
        assert(y.items()[18] == x.items()[18]);
        assert(y.items()[19] == x.items()[19]);
        assert(y.items()[20] == x.items()[20]);
        assert(y.items()[21] == x.items()[21]);
        assert(y.items()[22] == x.items()[22]);
        assert(y.items()[23] == x.items()[23]);
        assert(y.items()[24] == x.items()[24]);
        assert(y.items()[25] == x.items()[25]);
        assert(y.items()[26] == x.items()[26]);
        assert(y.items()[27] == x.items()[27]);
        assert(y.items()[28] == x.items()[28]);
        assert(y.items()[29] == x.items()[29]);
        assert(y.items()[30] == x.items()[30]);
        assert(y.items()[31] == x.items()[31]);
    }
}

impl SvExtraProjectile {
    /// The fields of the message, in the order they are sent.
    pub open spec fn items(self) -> Seq<Item> {
        int_items(self.projectile.ints())
    }

    /// The kinds of the fields.
    pub open spec fn fields() -> Seq<Field> {
        int_fields(Projectile::bounds())
    }

    /// The message can be sent: integers lie in their ranges and strings
    /// hold no NUL, sanitized ones no control characters.
    pub open spec fn valid(self) -> bool {
        &&& self.projectile.valid()
    }

    fn from_values(v: &[Value]) -> (r: SvExtraProjectile)
        requires
            fits_msg(SvExtraProjectile::fields(), items_of(v@)),
        ensures
            r.items() == items_of(v@),
    {
        proof {
            crate::gamenet::msg::lemma_value_at(SvExtraProjectile::fields(), v@, 0);
            crate::gamenet::msg::lemma_value_at(SvExtraProjectile::fields(), v@, 1);
            crate::gamenet::msg::lemma_value_at(SvExtraProjectile::fields(), v@, 2);
            crate::gamenet::msg::lemma_value_at(SvExtraProjectile::fields(), v@, 3);
            crate::gamenet::msg::lemma_value_at(SvExtraProjectile::fields(), v@, 4);
            crate::gamenet::msg::lemma_value_at(SvExtraProjectile::fields(), v@, 5);
        }
        let ints = crate::gamenet::msg::ints_of(v);
        proof {
            lemma_int_items(Projectile::bounds(), items_of(v@), ints@);
        }
        let projectile = Projectile::from_ints(ints.as_slice());
        let r = SvExtraProjectile {
            projectile,
        };
        proof {
            assert(r.items() =~= items_of(v@));
        }
        r
    }

    /// Reads the message from `p`; a message read in full warns about
    /// bytes left over, which it consumes.
    pub fn decode(warns: &mut Vec<Warning>, p: &mut Unpacker) -> (r: Result<SvExtraProjectile, Error>)
        ensures
            decoded_msg(
                SvExtraProjectile::fields(),
                old(p)@,
                final(p)@,
                old(warns)@,
                final(warns)@,
                match r {
                    Ok(x) => Ok(x.items()),
                    Err(e) => Err(e),
                },
            ),
    {
        let fields: [Field; 6] = [Field::Int(i32::MIN, i32::MAX), Field::Int(i32::MIN, i32::MAX), Field::Int(i32::MIN, i32::MAX), Field::Int(i32::MIN, i32::MAX), Field::Int(0i32, 5i32), Field::Int(i32::MIN, i32::MAX)];
        proof {
            assert(Projectile::bounds() =~= seq![(i32::MIN, i32::MAX), (i32::MIN, i32::MAX), (i32::MIN, i32::MAX), (i32::MIN, i32::MAX), (0i32, 5i32), (i32::MIN, i32::MAX)]);
            assert(fields@ =~= SvExtraProjectile::fields());
        }
        let v = match read_fields(warns, p, &fields) {
            Ok(v) => v,
            Err(e) => return Err(e),
        };
        let result = SvExtraProjectile::from_values(v.as_slice());
        p.finish(warns);
        Ok(result)
    }

    /// Writes the message into `p`; fails if it does not fit.
    pub fn encode(&self, p: Packer) -> (r: Result<Vec<u8>, CapacityError>)
        requires
            self.valid(),
        ensures
            (r is Ok) <==> p@.len() + encoding(self.items()).len() <= p.capacity(),
            r matches Ok(b) ==> b@ == p@ + encoding(self.items()),
    {
        let mut values: Vec<Value> = Vec::new();
        crate::gamenet::msg::push_ints(&mut values, self.projectile.encode().as_slice());
        proof {
            assert(items_of(values@) =~= self.items());
            lemma_sv_extra_projectile_writable(*self);
        }
        let mut p = p;
        match write_values(&mut p, values.as_slice()) {
            Ok(()) => Ok(p.written()),
            Err(e) => Err(e),
        }
    }
}

/// A valid `SvExtraProjectile` fits its fields and its strings hold no NUL.
proof fn lemma_sv_extra_projectile_writable(x: SvExtraProjectile)
    requires
        x.valid(),
    ensures
        fits_msg(SvExtraProjectile::fields(), x.items()),
        writable(x.items()),
{
    assert(crate::gamenet::fits(Projectile::bounds(), x.projectile.ints())) by {
        enums::lemma_weapon_values(x.projectile.type_, 0);
        assert forall|i: int| 0 <= i < 6 implies #[trigger] crate::gamenet::in_bounds(Projectile::bounds()[i], x.projectile.ints()[i]) by {}
    }
    crate::gamenet::msg::lemma_int_fits(Projectile::bounds(), x.projectile.ints());
    assert forall|i: int| 0 <= i < 6 implies #[trigger] crate::gamenet::msg::accepts(SvExtraProjectile::fields()[i], x.items()[i]) && (x.items()[i] matches Item::Str(s) ==> no_nul(s)) by {
        if i == 0 {
            assert(x.items()[0] == int_items(x.projectile.ints())[0]);
            assert(crate::gamenet::msg::accepts(int_fields(Projectile::bounds())[0], int_items(x.projectile.ints())[0]));
        } else if i == 1 {
            assert(x.items()[1] == int_items(x.projectile.ints())[1]);
            assert(crate::gamenet::msg::accepts(int_fields(Projectile::bounds())[1], int_items(x.projectile.ints())[1]));
        } else if i == 2 {
            assert(x.items()[2] == int_items(x.projectile.ints())[2]);
            assert(crate::gamenet::msg::accepts(int_fields(Projectile::bounds())[2], int_items(x.projectile.ints())[2]));
        } else if i == 3 {
            assert(x.items()[3] == int_items(x.projectile.ints())[3]);
            assert(crate::gamenet::msg::accepts(int_fields(Projectile::bounds())[3], int_items(x.projectile.ints())[3]));
        } else if i == 4 {
            assert(x.items()[4] == int_items(x.projectile.ints())[4]);
            assert(crate::gamenet::msg::accepts(int_fields(Projectile::bounds())[4], int_items(x.projectile.ints())[4]));
        } else if i == 5 {
            assert(x.items()[5] == int_items(x.projectile.ints())[5]);
            assert(crate::gamenet::msg::accepts(int_fields(Projectile::bounds())[5], int_items(x.projectile.ints())[5]));
        }
    }
}

/// Reading the encoding of a valid `SvExtraProjectile`, followed by anything, gives
/// back its fields without warnings, and no other `SvExtraProjectile` has the same
/// fields.
pub proof fn lemma_sv_extra_projectile_roundtrip(x: SvExtraProjectile, y: SvExtraProjectile, rest: Seq<u8>)
    requires
        x.valid(),
    ensures
        parse(SvExtraProjectile::fields(), encoding(x.items()) + rest) == (Ok::<Seq<Item>, Error>(x.items()), rest, Seq::<Warning>::empty()),
        y.items() == x.items() ==> y == x,
{
    lemma_sv_extra_projectile_writable(x);
    lemma_parse_encoding(SvExtraProjectile::fields(), x.items(), rest);
    if y.items() == x.items() {
        assert(int_items(y.projectile.ints()) =~= int_items(x.projectile.ints())) by {
            assert forall|i: int| 0 <= i < 6 implies int_items(y.projectile.ints())[i] == int_items(x.projectile.ints())[i] by {
                assert(y.items()[0 + i] == x.items()[0 + i]);
            }
        }
        crate::gamenet::msg::lemma_int_items_injective(y.projectile.ints(), x.projectile.ints());
        crate::gamenet::snap_obj::lemma_projectile_roundtrip(x.projectile, y.projectile, Seq::empty());
    }
}

impl SvReadyToEnter {
    /// The fields of the message, in the order they are sent.
    pub open spec fn items(self) -> Seq<Item> {
        Seq::empty()
    }

    /// The kinds of the fields.
    pub open spec fn fields() -> Seq<Field> {
        Seq::empty()
    }

    /// The message can be sent: integers lie in their ranges and strings
    /// hold no NUL, sanitized ones no control characters.
    pub open spec fn valid(self) -> bool {
        true
    }

    fn from_values(v: &[Value]) -> (r: SvReadyToEnter)
        requires
            fits_msg(SvReadyToEnter::fields(), items_of(v@)),
        ensures
            r.items() == items_of(v@),
    {
        let r = SvReadyToEnter;
        proof {
            assert(r.items() =~= items_of(v@));
        }
        r
    }

    /// Reads the message from `p`; a message read in full warns about
    /// bytes left over, which it consumes.
    pub fn decode(warns: &mut Vec<Warning>, p: &mut Unpacker) -> (r: Result<SvReadyToEnter, Error>)
        ensures
            decoded_msg(
                SvReadyToEnter::fields(),
                old(p)@,
                final(p)@,
                old(warns)@,
                final(warns)@,
                match r {
                    Ok(x) => Ok(x.items()),
                    Err(e) => Err(e),
                },
            ),
    {
        let fields: [Field; 0] = [];
        proof {
            assert(fields@ =~= SvReadyToEnter::fields());
        }
        let v = match read_fields(warns, p, &fields) {
            Ok(v) => v,
            Err(e) => return Err(e),
        };
        let result = SvReadyToEnter::from_values(v.as_slice());
        p.finish(warns);
        Ok(result)
    }

    /// Writes the message into `p`; fails if it does not fit.
    pub fn encode(&self, p: Packer) -> (r: Result<Vec<u8>, CapacityError>)
        ensures
            (r is Ok) <==> p@.len() + encoding(self.items()).len() <= p.capacity(),
            r matches Ok(b) ==> b@ == p@ + encoding(self.items()),
    {
        let mut values: Vec<Value> = Vec::new();
        proof {
            assert(items_of(values@) =~= self.items());
            lemma_sv_ready_to_enter_writable(*self);
        }
        let mut p = p;
        match write_values(&mut p, values.as_slice()) {
            Ok(()) => Ok(p.written()),
            Err(e) => Err(e),
        }
    }
}

/// A valid `SvReadyToEnter` fits its fields and its strings hold no NUL.
proof fn lemma_sv_ready_to_enter_writable(x: SvReadyToEnter)
    requires
        x.valid(),
    ensures
        fits_msg(SvReadyToEnter::fields(), x.items()),
        writable(x.items()),
{
}

/// Reading the encoding of a valid `SvReadyToEnter`, followed by anything, gives
/// back its fields without warnings, and no other `SvReadyToEnter` has the same
/// fields.
pub proof fn lemma_sv_ready_to_enter_roundtrip(x: SvReadyToEnter, y: SvReadyToEnter, rest: Seq<u8>)
    requires
        x.valid(),
    ensures
        parse(SvReadyToEnter::fields(), encoding(x.items()) + rest) == (Ok::<Seq<Item>, Error>(x.items()), rest, Seq::<Warning>::empty()),
        y.items() == x.items() ==> y == x,
{
    lemma_sv_ready_to_enter_writable(x);
    lemma_parse_encoding(SvReadyToEnter::fields(), x.items(), rest);
    if y.items() == x.items() {
    }
}

impl SvWeaponPickup {
    /// The fields of the message, in the order they are sent.
    pub open spec fn items(self) -> Seq<Item> {
        seq![Item::Int(self.weapon.value())]
    }

    /// The kinds of the fields.
    pub open spec fn fields() -> Seq<Field> {
        seq![Field::Int(0i32, 5i32)]
    }

    /// The message can be sent: integers lie in their ranges and strings
    /// hold no NUL, sanitized ones no control characters.
    pub open spec fn valid(self) -> bool {
        true
    }

    fn from_values(v: &[Value]) -> (r: SvWeaponPickup)
        requires
            fits_msg(SvWeaponPickup::fields(), items_of(v@)),
        ensures
            r.items() == items_of(v@),
    {
        proof {
            crate::gamenet::msg::lemma_value_at(SvWeaponPickup::fields(), v@, 0);
        }
        let e0 = int_at(v, 0);
        let weapon = match enums::Weapon::from_i32(e0) {
            Ok(e) => e,
            Err(_) => {
                proof {
                    assert(false);
                }
                enums::Weapon::Hammer
            },
        };
        proof {
            enums::lemma_weapon_values(weapon, e0);
        }
        let r = SvWeaponPickup {
            weapon,
        };
        proof {
            assert(r.items() =~= items_of(v@));
        }
        r
    }

    /// Reads the message from `p`; a message read in full warns about
    /// bytes left over, which it consumes.
    pub fn decode(warns: &mut Vec<Warning>, p: &mut Unpacker) -> (r: Result<SvWeaponPickup, Error>)
        ensures
            decoded_msg(
                SvWeaponPickup::fields(),
                old(p)@,
                final(p)@,
                old(warns)@,
                final(warns)@,
                match r {
                    Ok(x) => Ok(x.items()),
                    Err(e) => Err(e),
                },
            ),
    {
        let fields: [Field; 1] = [Field::Int(0i32, 5i32)];
        proof {
            assert(fields@ =~= SvWeaponPickup::fields());
        }
        let v = match read_fields(warns, p, &fields) {
            Ok(v) => v,
            Err(e) => return Err(e),
        };
        let result = SvWeaponPickup::from_values(v.as_slice());
        p.finish(warns);
        Ok(result)
    }

    /// Writes the message into `p`; fails if it does not fit.
    pub fn encode(&self, p: Packer) -> (r: Result<Vec<u8>, CapacityError>)
        ensures
            (r is Ok) <==> p@.len() + encoding(self.items()).len() <= p.capacity(),
            r matches Ok(b) ==> b@ == p@ + encoding(self.items()),
    {
        let mut values: Vec<Value> = Vec::new();
        values.push(Value::Int(self.weapon.to_i32()));
        proof {
            assert(items_of(values@) =~= self.items());
            lemma_sv_weapon_pickup_writable(*self);
        }
        let mut p = p;
        match write_values(&mut p, values.as_slice()) {
            Ok(()) => Ok(p.written()),
            Err(e) => Err(e),
        }
    }
}

/// A valid `SvWeaponPickup` fits its fields and its strings hold no NUL.
proof fn lemma_sv_weapon_pickup_writable(x: SvWeaponPickup)
    requires
        x.valid(),
    ensures
        fits_msg(SvWeaponPickup::fields(), x.items()),
        writable(x.items()),
{
    enums::lemma_weapon_values(x.weapon, 0);
    assert forall|i: int| 0 <= i < 1 implies #[trigger] crate::gamenet::msg::accepts(SvWeaponPickup::fields()[i], x.items()[i]) && (x.items()[i] matches Item::Str(s) ==> no_nul(s)) by {
        if i == 0 {
            assert(x.items()[0] == Item::Int(x.weapon.value()));
        }
    }
}

/// Reading the encoding of a valid `SvWeaponPickup`, followed by anything, gives
/// back its fields without warnings, and no other `SvWeaponPickup` has the same
/// fields.
pub proof fn lemma_sv_weapon_pickup_roundtrip(x: SvWeaponPickup, y: SvWeaponPickup, rest: Seq<u8>)
    requires
        x.valid(),
    ensures
        parse(SvWeaponPickup::fields(), encoding(x.items()) + rest) == (Ok::<Seq<Item>, Error>(x.items()), rest, Seq::<Warning>::empty()),
        y.items() == x.items() ==> y == x,
{
    lemma_sv_weapon_pickup_writable(x);
    lemma_parse_encoding(SvWeaponPickup::fields(), x.items(), rest);
    if y.items() == x.items() {
        assert(y.items()[0] == x.items()[0]);
        enums::lemma_weapon_values(x.weapon, 0);
        enums::lemma_weapon_values(y.weapon, 0);
    }
}

impl SvEmoticon {
    /// The fields of the message, in the order they are sent.
    pub open spec fn items(self) -> Seq<Item> {
        seq![Item::Int(self.client_id), Item::Int(self.emoticon.value())]
    }

    /// The kinds of the fields.
    pub open spec fn fields() -> Seq<Field> {
        seq![Field::Int(0i32, 63i32), Field::Int(0i32, 15i32)]
    }

    /// The message can be sent: integers lie in their ranges and strings
    /// hold no NUL, sanitized ones no control characters.
    pub open spec fn valid(self) -> bool {
        &&& 0i32 <= self.client_id && self.client_id <= 63i32
    }

    fn from_values(v: &[Value]) -> (r: SvEmoticon)
        requires
            fits_msg(SvEmoticon::fields(), items_of(v@)),
        ensures
            r.items() == items_of(v@),
    {
        proof {
            crate::gamenet::msg::lemma_value_at(SvEmoticon::fields(), v@, 0);
            crate::gamenet::msg::lemma_value_at(SvEmoticon::fields(), v@, 1);
        }
        let e1 = int_at(v, 1);
        let emoticon = match enums::Emoticon::from_i32(e1) {
            Ok(e) => e,
            Err(_) => {
                proof {
                    assert(false);
                }
                enums::Emoticon::Oop
            },
        };
        proof {
            enums::lemma_emoticon_values(emoticon, e1);
        }
        let r = SvEmoticon {
            client_id: int_at(v, 0),
            emoticon,
        };
        proof {
            assert(r.items() =~= items_of(v@));
        }
        r
    }

    /// Reads the message from `p`; a message read in full warns about
    /// bytes left over, which it consumes.
    pub fn decode(warns: &mut Vec<Warning>, p: &mut Unpacker) -> (r: Result<SvEmoticon, Error>)
        ensures
            decoded_msg(
                SvEmoticon::fields(),
                old(p)@,
                final(p)@,
                old(warns)@,
                final(warns)@,
                match r {
                    Ok(x) => Ok(x.items()),
                    Err(e) => Err(e),
                },
            ),
    {
        let fields: [Field; 2] = [Field::Int(0i32, 63i32), Field::Int(0i32, 15i32)];
        proof {
            assert(fields@ =~= SvEmoticon::fields());
        }
        let v = match read_fields(warns, p, &fields) {
            Ok(v) => v,
            Err(e) => return Err(e),
        };
        let result = SvEmoticon::from_values(v.as_slice());
        p.finish(warns);
        Ok(result)
    }

    /// Writes the message into `p`; fails if it does not fit.
    pub fn encode(&self, p: Packer) -> (r: Result<Vec<u8>, CapacityError>)
        requires
            self.valid(),
        ensures
            (r is Ok) <==> p@.len() + encoding(self.items()).len() <= p.capacity(),
            r matches Ok(b) ==> b@ == p@ + encoding(self.items()),
    {
        let mut values: Vec<Value> = Vec::new();
        values.push(Value::Int(self.client_id));
        values.push(Value::Int(self.emoticon.to_i32()));
        proof {
            assert(items_of(values@) =~= self.items());
            lemma_sv_emoticon_writable(*self);
        }
        let mut p = p;
        match write_values(&mut p, values.as_slice()) {
            Ok(()) => Ok(p.written()),
            Err(e) => Err(e),
        }
    }
}

/// A valid `SvEmoticon` fits its fields and its strings hold no NUL.
proof fn lemma_sv_emoticon_writable(x: SvEmoticon)
    requires
        x.valid(),
    ensures
        fits_msg(SvEmoticon::fields(), x.items()),
        writable(x.items()),
{
    enums::lemma_emoticon_values(x.emoticon, 0);
    assert forall|i: int| 0 <= i < 2 implies #[trigger] crate::gamenet::msg::accepts(SvEmoticon::fields()[i], x.items()[i]) && (x.items()[i] matches Item::Str(s) ==> no_nul(s)) by {
        if i == 0 {
            assert(x.items()[0] == Item::Int(x.client_id));
        } else if i == 1 {
            assert(x.items()[1] == Item::Int(x.emoticon.value()));
        }
    }
}

/// Reading the encoding of a valid `SvEmoticon`, followed by anything, gives
/// back its fields without warnings, and no other `SvEmoticon` has the same
/// fields.
pub proof fn lemma_sv_emoticon_roundtrip(x: SvEmoticon, y: SvEmoticon, rest: Seq<u8>)
    requires
        x.valid(),
    ensures
        parse(SvEmoticon::fields(), encoding(x.items()) + rest) == (Ok::<Seq<Item>, Error>(x.items()), rest, Seq::<Warning>::empty()),
        y.items() == x.items() ==> y == x,
{
    lemma_sv_emoticon_writable(x);
    lemma_parse_encoding(SvEmoticon::fields(), x.items(), rest);
    if y.items() == x.items() {
        assert(y.items()[0] == x.items()[0]);
        assert(y.items()[1] == x.items()[1]);
        enums::lemma_emoticon_values(x.emoticon, 0);
        enums::lemma_emoticon_values(y.emoticon, 0);
    }
}

impl SvVoteClearOptions {
    /// The fields of the message, in the order they are sent.
    pub open spec fn items(self) -> Seq<Item> {
        Seq::empty()
    }

    /// The kinds of the fields.
    pub open spec fn fields() -> Seq<Field> {
        Seq::empty()
    }

    /// The message can be sent: integers lie in their ranges and strings
    /// hold no NUL, sanitized ones no control characters.
    pub open spec fn valid(self) -> bool {
        true
    }

    fn from_values(v: &[Value]) -> (r: SvVoteClearOptions)
        requires
            fits_msg(SvVoteClearOptions::fields(), items_of(v@)),
        ensures
            r.items() == items_of(v@),
    {
        let r = SvVoteClearOptions;
        proof {
            assert(r.items() =~= items_of(v@));
        }
        r
    }

    /// Reads the message from `p`; a message read in full warns about
    /// bytes left over, which it consumes.
    pub fn decode(warns: &mut Vec<Warning>, p: &mut Unpacker) -> (r: Result<SvVoteClearOptions, Error>)
        ensures
            decoded_msg(
                SvVoteClearOptions::fields(),
                old(p)@,
                final(p)@,
                old(warns)@,
                final(warns)@,
                match r {
                    Ok(x) => Ok(x.items()),
                    Err(e) => Err(e),
                },
            ),
    {
        let fields: [Field; 0] = [];
        proof {
            assert(fields@ =~= SvVoteClearOptions::fields());
        }
        let v = match read_fields(warns, p, &fields) {
            Ok(v) => v,
            Err(e) => return Err(e),
        };
        let result = SvVoteClearOptions::from_values(v.as_slice());
        p.finish(warns);
        Ok(result)
    }

    /// Writes the message into `p`; fails if it does not fit.
    pub fn encode(&self, p: Packer) -> (r: Result<Vec<u8>, CapacityError>)
        ensures
            (r is Ok) <==> p@.len() + encoding(self.items()).len() <= p.capacity(),
            r matches Ok(b) ==> b@ == p@ + encoding(self.items()),
    {
        let mut values: Vec<Value> = Vec::new();
        proof {
            assert(items_of(values@) =~= self.items());
            lemma_sv_vote_clear_options_writable(*self);
        }
        let mut p = p;
        match write_values(&mut p, values.as_slice()) {
            Ok(()) => Ok(p.written()),
            Err(e) => Err(e),
        }
    }
}

/// A valid `SvVoteClearOptions` fits its fields and its strings hold no NUL.
proof fn lemma_sv_vote_clear_options_writable(x: SvVoteClearOptions)
    requires
        x.valid(),
    ensures
        fits_msg(SvVoteClearOptions::fields(), x.items()),
        writable(x.items()),
{
}

/// Reading the encoding of a valid `SvVoteClearOptions`, followed by anything, gives
/// back its fields without warnings, and no other `SvVoteClearOptions` has the same
/// fields.
pub proof fn lemma_sv_vote_clear_options_roundtrip(x: SvVoteClearOptions, y: SvVoteClearOptions, rest: Seq<u8>)
    requires
        x.valid(),
    ensures
        parse(SvVoteClearOptions::fields(), encoding(x.items()) + rest) == (Ok::<Seq<Item>, Error>(x.items()), rest, Seq::<Warning>::empty()),
        y.items() == x.items() ==> y == x,
{
    lemma_sv_vote_clear_options_writable(x);
    lemma_parse_encoding(SvVoteClearOptions::fields(), x.items(), rest);
    if y.items() == x.items() {
    }
}

impl SvVoteOptionListAdd {
    /// The fields of the message, in the order they are sent.
    pub open spec fn items(self) -> Seq<Item> {
        Seq::empty()
    }

    /// The kinds of the fields.
    pub open spec fn fields() -> Seq<Field> {
        Seq::empty()
    }

    /// The message can be sent: integers lie in their ranges and strings
    /// hold no NUL, sanitized ones no control characters.
    pub open spec fn valid(self) -> bool {
        true
    }

    fn from_values(v: &[Value]) -> (r: SvVoteOptionListAdd)
        requires
            fits_msg(SvVoteOptionListAdd::fields(), items_of(v@)),
        ensures
            r.items() == items_of(v@),
    {
        let r = SvVoteOptionListAdd;
        proof {
            assert(r.items() =~= items_of(v@));
        }
        r
    }

    /// Reads the message from `p`; a message read in full warns about
    /// bytes left over, which it consumes.
    pub fn decode(warns: &mut Vec<Warning>, p: &mut Unpacker) -> (r: Result<SvVoteOptionListAdd, Error>)
        ensures
            decoded_msg(
                SvVoteOptionListAdd::fields(),
                old(p)@,
                final(p)@,
                old(warns)@,
                final(warns)@,
                match r {
                    Ok(x) => Ok(x.items()),
                    Err(e) => Err(e),
                },
            ),
    {
        let fields: [Field; 0] = [];
        proof {
            assert(fields@ =~= SvVoteOptionListAdd::fields());
        }
        let v = match read_fields(warns, p, &fields) {
            Ok(v) => v,
            Err(e) => return Err(e),
        };
        let result = SvVoteOptionListAdd::from_values(v.as_slice());
        p.finish(warns);
        Ok(result)
    }

    /// Writes the message into `p`; fails if it does not fit.
    pub fn encode(&self, p: Packer) -> (r: Result<Vec<u8>, CapacityError>)
        ensures
            (r is Ok) <==> p@.len() + encoding(self.items()).len() <= p.capacity(),
            r matches Ok(b) ==> b@ == p@ + encoding(self.items()),
    {
        let mut values: Vec<Value> = Vec::new();
        proof {
            assert(items_of(values@) =~= self.items());
            lemma_sv_vote_option_list_add_writable(*self);
        }
        let mut p = p;
        match write_values(&mut p, values.as_slice()) {
            Ok(()) => Ok(p.written()),
            Err(e) => Err(e),
        }
    }
}

/// A valid `SvVoteOptionListAdd` fits its fields and its strings hold no NUL.
proof fn lemma_sv_vote_option_list_add_writable(x: SvVoteOptionListAdd)
    requires
        x.valid(),
    ensures
        fits_msg(SvVoteOptionListAdd::fields(), x.items()),
        writable(x.items()),
{
}

/// Reading the encoding of a valid `SvVoteOptionListAdd`, followed by anything, gives
/// back its fields without warnings, and no other `SvVoteOptionListAdd` has the same
/// fields.
pub proof fn lemma_sv_vote_option_list_add_roundtrip(x: SvVoteOptionListAdd, y: SvVoteOptionListAdd, rest: Seq<u8>)
    requires
        x.valid(),
    ensures
        parse(SvVoteOptionListAdd::fields(), encoding(x.items()) + rest) == (Ok::<Seq<Item>, Error>(x.items()), rest, Seq::<Warning>::empty()),
        y.items() == x.items() ==> y == x,
{
    lemma_sv_vote_option_list_add_writable(x);
    lemma_parse_encoding(SvVoteOptionListAdd::fields(), x.items(), rest);
    if y.items() == x.items() {
    }
}

impl<'a> SvVoteOptionAdd<'a> {
    /// The fields of the message, in the order they are sent.
    pub open spec fn items(self) -> Seq<Item> {
        seq![Item::Str(self.description@)]
    }

    /// The kinds of the fields.
    pub open spec fn fields() -> Seq<Field> {
        seq![Field::Sanitized]
    }

    /// The message can be sent: integers lie in their ranges and strings
    /// hold no NUL, sanitized ones no control characters.
    pub open spec fn valid(self) -> bool {
        &&& no_control(self.description@)
    }

    fn from_values(v: &[Value<'a>]) -> (r: SvVoteOptionAdd<'a>)
        requires
            fits_msg(SvVoteOptionAdd::fields(), items_of(v@)),
        ensures
            r.items() == items_of(v@),
    {
        proof {
            crate::gamenet::msg::lemma_value_at(SvVoteOptionAdd::fields(), v@, 0);
        }
        let r = SvVoteOptionAdd {
            description: str_at(v, 0),
        };
        proof {
            assert(r.items() =~= items_of(v@));
        }
        r
    }

    /// Reads the message from `p`; a message read in full warns about
    /// bytes left over, which it consumes.
    pub fn decode(warns: &mut Vec<Warning>, p: &mut Unpacker<'a>) -> (r: Result<SvVoteOptionAdd<'a>, Error>)
        ensures
            decoded_msg(
                SvVoteOptionAdd::fields(),
                old(p)@,
                final(p)@,
                old(warns)@,
                final(warns)@,
                match r {
                    Ok(x) => Ok(x.items()),
                    Err(e) => Err(e),
                },
            ),
    {
        let fields: [Field; 1] = [Field::Sanitized];
        proof {
            assert(fields@ =~= SvVoteOptionAdd::fields());
        }
        let v = match read_fields(warns, p, &fields) {
            Ok(v) => v,
            Err(e) => return Err(e),
        };
        let result = SvVoteOptionAdd::from_values(v.as_slice());
        p.finish(warns);
        Ok(result)
    }

    /// Writes the message into `p`; fails if it does not fit.
    pub fn encode(&self, p: Packer) -> (r: Result<Vec<u8>, CapacityError>)
        requires
            self.valid(),
        ensures
            (r is Ok) <==> p@.len() + encoding(self.items()).len() <= p.capacity(),
            r matches Ok(b) ==> b@ == p@ + encoding(self.items()),
    {
        let mut values: Vec<Value> = Vec::new();
        values.push(Value::Str(self.description));
        proof {
            assert(items_of(values@) =~= self.items());
            lemma_sv_vote_option_add_writable(*self);
        }
        let mut p = p;
        match write_values(&mut p, values.as_slice()) {
            Ok(()) => Ok(p.written()),
            Err(e) => Err(e),
        }
    }
}

/// A valid `SvVoteOptionAdd` fits its fields and its strings hold no NUL.
proof fn lemma_sv_vote_option_add_writable<'a>(x: SvVoteOptionAdd<'a>)
    requires
        x.valid(),
    ensures
        fits_msg(SvVoteOptionAdd::fields(), x.items()),
        writable(x.items()),
{
    assert forall|i: int| 0 <= i < 1 implies #[trigger] crate::gamenet::msg::accepts(SvVoteOptionAdd::fields()[i], x.items()[i]) && (x.items()[i] matches Item::Str(s) ==> no_nul(s)) by {
        if i == 0 {
            assert(x.items()[0] == Item::Str(x.description@));
            crate::gamenet::msg::lemma_no_control_no_nul(x.description@);
        }
    }
}

/// Reading the encoding of a valid `SvVoteOptionAdd`, followed by anything, gives
/// back its fields without warnings, and no other `SvVoteOptionAdd` has the same
/// fields.
pub proof fn lemma_sv_vote_option_add_roundtrip<'a>(x: SvVoteOptionAdd<'a>, y: SvVoteOptionAdd<'a>, rest: Seq<u8>)
    requires
        x.valid(),
    ensures
        parse(SvVoteOptionAdd::fields(), encoding(x.items()) + rest) == (Ok::<Seq<Item>, Error>(x.items()), rest, Seq::<Warning>::empty()),
        y.items() == x.items() ==> y == x,
{
    lemma_sv_vote_option_add_writable(x);
    lemma_parse_encoding(SvVoteOptionAdd::fields(), x.items(), rest);
    if y.items() == x.items() {
        assert(y.items()[0] == x.items()[0]);
        assert(y.description =~= x.description);
    }
}

impl<'a> SvVoteOptionRemove<'a> {
    /// The fields of the message, in the order they are sent.
    pub open spec fn items(self) -> Seq<Item> {
        seq![Item::Str(self.description@)]
    }

    /// The kinds of the fields.
    pub open spec fn fields() -> Seq<Field> {
        seq![Field::Sanitized]
    }

    /// The message can be sent: integers lie in their ranges and strings
    /// hold no NUL, sanitized ones no control characters.
    pub open spec fn valid(self) -> bool {
        &&& no_control(self.description@)
    }

    fn from_values(v: &[Value<'a>]) -> (r: SvVoteOptionRemove<'a>)
        requires
            fits_msg(SvVoteOptionRemove::fields(), items_of(v@)),
        ensures
            r.items() == items_of(v@),
    {
        proof {
            crate::gamenet::msg::lemma_value_at(SvVoteOptionRemove::fields(), v@, 0);
        }
        let r = SvVoteOptionRemove {
            description: str_at(v, 0),
        };
        proof {
            assert(r.items() =~= items_of(v@));
        }
        r
    }

    /// Reads the message from `p`; a message read in full warns about
    /// bytes left over, which it consumes.
    pub fn decode(warns: &mut Vec<Warning>, p: &mut Unpacker<'a>) -> (r: Result<SvVoteOptionRemove<'a>, Error>)
        ensures
            decoded_msg(
                SvVoteOptionRemove::fields(),
                old(p)@,
                final(p)@,
                old(warns)@,
                final(warns)@,
                match r {
                    Ok(x) => Ok(x.items()),
                    Err(e) => Err(e),
                },
            ),
    {
        let fields: [Field; 1] = [Field::Sanitized];
        proof {
            assert(fields@ =~= SvVoteOptionRemove::fields());
        }
        let v = match read_fields(warns, p, &fields) {
            Ok(v) => v,
            Err(e) => return Err(e),
        };
        let result = SvVoteOptionRemove::from_values(v.as_slice());
        p.finish(warns);
        Ok(result)
    }

    /// Writes the message into `p`; fails if it does not fit.
    pub fn encode(&self, p: Packer) -> (r: Result<Vec<u8>, CapacityError>)
        requires
            self.valid(),
        ensures
            (r is Ok) <==> p@.len() + encoding(self.items()).len() <= p.capacity(),
            r matches Ok(b) ==> b@ == p@ + encoding(self.items()),
    {
        let mut values: Vec<Value> = Vec::new();
        values.push(Value::Str(self.description));
        proof {
            assert(items_of(values@) =~= self.items());
            lemma_sv_vote_option_remove_writable(*self);
        }
        let mut p = p;
        match write_values(&mut p, values.as_slice()) {
            Ok(()) => Ok(p.written()),
            Err(e) => Err(e),
        }
    }
}

/// A valid `SvVoteOptionRemove` fits its fields and its strings hold no NUL.
proof fn lemma_sv_vote_option_remove_writable<'a>(x: SvVoteOptionRemove<'a>)
    requires
        x.valid(),
    ensures
        fits_msg(SvVoteOptionRemove::fields(), x.items()),
        writable(x.items()),
{
    assert forall|i: int| 0 <= i < 1 implies #[trigger] crate::gamenet::msg::accepts(SvVoteOptionRemove::fields()[i], x.items()[i]) && (x.items()[i] matches Item::Str(s) ==> no_nul(s)) by {
        if i == 0 {
            assert(x.items()[0] == Item::Str(x.description@));
            crate::gamenet::msg::lemma_no_control_no_nul(x.description@);
        }
    }
}

/// Reading the encoding of a valid `SvVoteOptionRemove`, followed by anything, gives
/// back its fields without warnings, and no other `SvVoteOptionRemove` has the same
/// fields.
pub proof fn lemma_sv_vote_option_remove_roundtrip<'a>(x: SvVoteOptionRemove<'a>, y: SvVoteOptionRemove<'a>, rest: Seq<u8>)
    requires
        x.valid(),
    ensures
        parse(SvVoteOptionRemove::fields(), encoding(x.items()) + rest) == (Ok::<Seq<Item>, Error>(x.items()), rest, Seq::<Warning>::empty()),
        y.items() == x.items() ==> y == x,
{
    lemma_sv_vote_option_remove_writable(x);
    lemma_parse_encoding(SvVoteOptionRemove::fields(), x.items(), rest);
    if y.items() == x.items() {
        assert(y.items()[0] == x.items()[0]);
        assert(y.description =~= x.description);
    }
}

impl<'a> SvVoteSet<'a> {
    /// The fields of the message, in the order they are sent.
    pub open spec fn items(self) -> Seq<Item> {
        seq![Item::Int(self.client_id), Item::Int(self.type_.value()), Item::Int(self.timeout), Item::Str(self.description@), Item::Str(self.reason@)]
    }

    /// The kinds of the fields.
    pub open spec fn fields() -> Seq<Field> {
        seq![Field::Int(-1i32, 63i32), Field::Int(0i32, 6i32), Field::Int(0i32, 60i32), Field::Sanitized, Field::Sanitized]
    }

    /// The message can be sent: integers lie in their ranges and strings
    /// hold no NUL, sanitized ones no control characters.
    pub open spec fn valid(self) -> bool {
        &&& -1i32 <= self.client_id && self.client_id <= 63i32
        &&& 0i32 <= self.timeout && self.timeout <= 60i32
        &&& no_control(self.description@)
        &&& no_control(self.reason@)
    }

    fn from_values(v: &[Value<'a>]) -> (r: SvVoteSet<'a>)
        requires
            fits_msg(SvVoteSet::fields(), items_of(v@)),
        ensures
            r.items() == items_of(v@),
    {
        proof {
            crate::gamenet::msg::lemma_value_at(SvVoteSet::fields(), v@, 0);
            crate::gamenet::msg::lemma_value_at(SvVoteSet::fields(), v@, 1);
            crate::gamenet::msg::lemma_value_at(SvVoteSet::fields(), v@, 2);
            crate::gamenet::msg::lemma_value_at(SvVoteSet::fields(), v@, 3);
            crate::gamenet::msg::lemma_value_at(SvVoteSet::fields(), v@, 4);
        }
        let e1 = int_at(v, 1);
        let type_ = match enums::Vote::from_i32(e1) {
            Ok(e) => e,
            Err(_) => {
                proof {
                    assert(false);
                }
                enums::Vote::Unknown
            },
        };
        proof {
            enums::lemma_vote_values(type_, e1);
        }
        let r = SvVoteSet {
            client_id: int_at(v, 0),
            type_,
            timeout: int_at(v, 2),
            description: str_at(v, 3),
            reason: str_at(v, 4),
        };
        proof {
            assert(r.items() =~= items_of(v@));
        }
        r
    }

    /// Reads the message from `p`; a message read in full warns about
    /// bytes left over, which it consumes.
    pub fn decode(warns: &mut Vec<Warning>, p: &mut Unpacker<'a>) -> (r: Result<SvVoteSet<'a>, Error>)
        ensures
            decoded_msg(
                SvVoteSet::fields(),
                old(p)@,
                final(p)@,
                old(warns)@,
                final(warns)@,
                match r {
                    Ok(x) => Ok(x.items()),
                    Err(e) => Err(e),
                },
            ),
    {
        let fields: [Field; 5] = [Field::Int(-1i32, 63i32), Field::Int(0i32, 6i32), Field::Int(0i32, 60i32), Field::Sanitized, Field::Sanitized];
        proof {
            assert(fields@ =~= SvVoteSet::fields());
        }
        let v = match read_fields(warns, p, &fields) {
            Ok(v) => v,
            Err(e) => return Err(e),
        };
        let result = SvVoteSet::from_values(v.as_slice());
        p.finish(warns);
        Ok(result)
    }

    /// Writes the message into `p`; fails if it does not fit.
    pub fn encode(&self, p: Packer) -> (r: Result<Vec<u8>, CapacityError>)
        requires
            self.valid(),
        ensures
            (r is Ok) <==> p@.len() + encoding(self.items()).len() <= p.capacity(),
            r matches Ok(b) ==> b@ == p@ + encoding(self.items()),
    {
        let mut values: Vec<Value> = Vec::new();
        values.push(Value::Int(self.client_id));
        values.push(Value::Int(self.type_.to_i32()));
        values.push(Value::Int(self.timeout));
        values.push(Value::Str(self.description));
        values.push(Value::Str(self.reason));
        proof {
            assert(items_of(values@) =~= self.items());
            lemma_sv_vote_set_writable(*self);
        }
        let mut p = p;
        match write_values(&mut p, values.as_slice()) {
            Ok(()) => Ok(p.written()),
            Err(e) => Err(e),
        }
    }
}

/// A valid `SvVoteSet` fits its fields and its strings hold no NUL.
proof fn lemma_sv_vote_set_writable<'a>(x: SvVoteSet<'a>)
    requires
        x.valid(),
    ensures
        fits_msg(SvVoteSet::fields(), x.items()),
        writable(x.items()),
{
    enums::lemma_vote_values(x.type_, 0);
    assert forall|i: int| 0 <= i < 5 implies #[trigger] crate::gamenet::msg::accepts(SvVoteSet::fields()[i], x.items()[i]) && (x.items()[i] matches Item::Str(s) ==> no_nul(s)) by {
        if i == 0 {
            assert(x.items()[0] == Item::Int(x.client_id));
        } else if i == 1 {
            assert(x.items()[1] == Item::Int(x.type_.value()));
        } else if i == 2 {
            assert(x.items()[2] == Item::Int(x.timeout));
        } else if i == 3 {
            assert(x.items()[3] == Item::Str(x.description@));
            crate::gamenet::msg::lemma_no_control_no_nul(x.description@);
        } else if i == 4 {
            assert(x.items()[4] == Item::Str(x.reason@));
            crate::gamenet::msg::lemma_no_control_no_nul(x.reason@);
        }
    }
}

/// Reading the encoding of a valid `SvVoteSet`, followed by anything, gives
/// back its fields without warnings, and no other `SvVoteSet` has the same
/// fields.
pub proof fn lemma_sv_vote_set_roundtrip<'a>(x: SvVoteSet<'a>, y: SvVoteSet<'a>, rest: Seq<u8>)
    requires
        x.valid(),
    ensures
        parse(SvVoteSet::fields(), encoding(x.items()) + rest) == (Ok::<Seq<Item>, Error>(x.items()), rest, Seq::<Warning>::empty()),
        y.items() == x.items() ==> y == x,
{
    lemma_sv_vote_set_writable(x);
    lemma_parse_encoding(SvVoteSet::fields(), x.items(), rest);
    if y.items() == x.items() {
        assert(y.items()[0] == x.items()[0]);
        assert(y.items()[1] == x.items()[1]);
        enums::lemma_vote_values(x.type_, 0);
        enums::lemma_vote_values(y.type_, 0);
        assert(y.items()[2] == x.items()[2]);
        assert(y.items()[3] == x.items()[3]);
        assert(y.description =~= x.description);
        assert(y.items()[4] == x.items()[4]);
        assert(y.reason =~= x.reason);
    }
}

impl SvVoteStatus {
    /// The fields of the message, in the order they are sent.
    pub open spec fn items(self) -> Seq<Item> {
        seq![Item::Int(self.yes), Item::Int(self.no), Item::Int(self.pass), Item::Int(self.total)]
    }

    /// The kinds of the fields.
    pub open spec fn fields() -> Seq<Field> {
        seq![Field::Int(0i32, 64i32), Field::Int(0i32, 64i32), Field::Int(0i32, 64i32), Field::Int(0i32, 64i32)]
    }

    /// The message can be sent: integers lie in their ranges and strings
    /// hold no NUL, sanitized ones no control characters.
    pub open spec fn valid(self) -> bool {
        &&& 0i32 <= self.yes && self.yes <= 64i32
        &&& 0i32 <= self.no && self.no <= 64i32
        &&& 0i32 <= self.pass && self.pass <= 64i32
        &&& 0i32 <= self.total && self.total <= 64i32
    }

    fn from_values(v: &[Value]) -> (r: SvVoteStatus)
        requires
            fits_msg(SvVoteStatus::fields(), items_of(v@)),
        ensures
            r.items() == items_of(v@),
    {
        proof {
            crate::gamenet::msg::lemma_value_at(SvVoteStatus::fields(), v@, 0);
            crate::gamenet::msg::lemma_value_at(SvVoteStatus::fields(), v@, 1);
            crate::gamenet::msg::lemma_value_at(SvVoteStatus::fields(), v@, 2);
            crate::gamenet::msg::lemma_value_at(SvVoteStatus::fields(), v@, 3);
        }
        let r = SvVoteStatus {
            yes: int_at(v, 0),
            no: int_at(v, 1),
            pass: int_at(v, 2),
            total: int_at(v, 3),
        };
        proof {
            assert(r.items() =~= items_of(v@));
        }
        r
    }

    /// Reads the message from `p`; a message read in full warns about
    /// bytes left over, which it consumes.
    pub fn decode(warns: &mut Vec<Warning>, p: &mut Unpacker) -> (r: Result<SvVoteStatus, Error>)
        ensures
            decoded_msg(
                SvVoteStatus::fields(),
                old(p)@,
                final(p)@,
                old(warns)@,
                final(warns)@,
                match r {
                    Ok(x) => Ok(x.items()),
                    Err(e) => Err(e),
                },
            ),
    {
        let fields: [Field; 4] = [Field::Int(0i32, 64i32), Field::Int(0i32, 64i32), Field::Int(0i32, 64i32), Field::Int(0i32, 64i32)];
        proof {
            assert(fields@ =~= SvVoteStatus::fields());
        }
        let v = match read_fields(warns, p, &fields) {
            Ok(v) => v,
            Err(e) => return Err(e),
        };
        let result = SvVoteStatus::from_values(v.as_slice());
        p.finish(warns);
        Ok(result)
    }

    /// Writes the message into `p`; fails if it does not fit.
    pub fn encode(&self, p: Packer) -> (r: Result<Vec<u8>, CapacityError>)
        requires
            self.valid(),
        ensures
            (r is Ok) <==> p@.len() + encoding(self.items()).len() <= p.capacity(),
            r matches Ok(b) ==> b@ == p@ + encoding(self.items()),
    {
        let mut values: Vec<Value> = Vec::new();
        values.push(Value::Int(self.yes));
        values.push(Value::Int(self.no));
        values.push(Value::Int(self.pass));
        values.push(Value::Int(self.total));
        proof {
            assert(items_of(values@) =~= self.items());
            lemma_sv_vote_status_writable(*self);
        }
        let mut p = p;
        match write_values(&mut p, values.as_slice()) {
            Ok(()) => Ok(p.written()),
            Err(e) => Err(e),
        }
    }
}

/// A valid `SvVoteStatus` fits its fields and its strings hold no NUL.
proof fn lemma_sv_vote_status_writable(x: SvVoteStatus)
    requires
        x.valid(),
    ensures
        fits_msg(SvVoteStatus::fields(), x.items()),
        writable(x.items()),
{
    assert forall|i: int| 0 <= i < 4 implies #[trigger] crate::gamenet::msg::accepts(SvVoteStatus::fields()[i], x.items()[i]) && (x.items()[i] matches Item::Str(s) ==> no_nul(s)) by {
        if i == 0 {
            assert(x.items()[0] == Item::Int(x.yes));
        } else if i == 1 {
            assert(x.items()[1] == Item::Int(x.no));
        } else if i == 2 {
            assert(x.items()[2] == Item::Int(x.pass));
        } else if i == 3 {
            assert(x.items()[3] == Item::Int(x.total));
        }
    }
}

/// Reading the encoding of a valid `SvVoteStatus`, followed by anything, gives
/// back its fields without warnings, and no other `SvVoteStatus` has the same
/// fields.
pub proof fn lemma_sv_vote_status_roundtrip(x: SvVoteStatus, y: SvVoteStatus, rest: Seq<u8>)
    requires
        x.valid(),
    ensures
        parse(SvVoteStatus::fields(), encoding(x.items()) + rest) == (Ok::<Seq<Item>, Error>(x.items()), rest, Seq::<Warning>::empty()),
        y.items() == x.items() ==> y == x,
{
    lemma_sv_vote_status_writable(x);
    lemma_parse_encoding(SvVoteStatus::fields(), x.items(), rest);
    if y.items() == x.items() {
        assert(y.items()[0] == x.items()[0]);
        assert(y.items()[1] == x.items()[1]);
        assert(y.items()[2] == x.items()[2]);
        assert(y.items()[3] == x.items()[3]);
    }
}

impl SvServerSettings {
    /// The fields of the message, in the order they are sent.
    pub open spec fn items(self) -> Seq<Item> {
        seq![Item::Int(bool_int(self.kick_vote)), Item::Int(self.kick_min), Item::Int(bool_int(self.spec_vote)), Item::Int(bool_int(self.team_lock)), Item::Int(bool_int(self.team_balance)), Item::Int(self.player_slots)]
    }

    /// The kinds of the fields.
    pub open spec fn fields() -> Seq<Field> {
        seq![Field::Int(0i32, 1i32), Field::Int(0i32, 64i32), Field::Int(0i32, 1i32), Field::Int(0i32, 1i32), Field::Int(0i32, 1i32), Field::Int(0i32, 64i32)]
    }

    /// The message can be sent: integers lie in their ranges and strings
    /// hold no NUL, sanitized ones no control characters.
    pub open spec fn valid(self) -> bool {
        &&& 0i32 <= self.kick_min && self.kick_min <= 64i32
        &&& 0i32 <= self.player_slots && self.player_slots <= 64i32
    }

    fn from_values(v: &[Value]) -> (r: SvServerSettings)
        requires
            fits_msg(SvServerSettings::fields(), items_of(v@)),
        ensures
            r.items() == items_of(v@),
    {
        proof {
            crate::gamenet::msg::lemma_value_at(SvServerSettings::fields(), v@, 0);
            crate::gamenet::msg::lemma_value_at(SvServerSettings::fields(), v@, 1);
            crate::gamenet::msg::lemma_value_at(SvServerSettings::fields(), v@, 2);
            crate::gamenet::msg::lemma_value_at(SvServerSettings::fields(), v@, 3);
            crate::gamenet::msg::lemma_value_at(SvServerSettings::fields(), v@, 4);
            crate::gamenet::msg::lemma_value_at(SvServerSettings::fields(), v@, 5);
        }
        let r = SvServerSettings {
            kick_vote: int_at(v, 0) != 0,
            kick_min: int_at(v, 1),
            spec_vote: int_at(v, 2) != 0,
            team_lock: int_at(v, 3) != 0,
            team_balance: int_at(v, 4) != 0,
            player_slots: int_at(v, 5),
        };
        proof {
            assert(r.items() =~= items_of(v@));
        }
        r
    }

    /// Reads the message from `p`; a message read in full warns about
    /// bytes left over, which it consumes.
    pub fn decode(warns: &mut Vec<Warning>, p: &mut Unpacker) -> (r: Result<SvServerSettings, Error>)
        ensures
            decoded_msg(
                SvServerSettings::fields(),
                old(p)@,
                final(p)@,
                old(warns)@,
                final(warns)@,
                match r {
                    Ok(x) => Ok(x.items()),
                    Err(e) => Err(e),
                },
            ),
    {
        let fields: [Field; 6] = [Field::Int(0i32, 1i32), Field::Int(0i32, 64i32), Field::Int(0i32, 1i32), Field::Int(0i32, 1i32), Field::Int(0i32, 1i32), Field::Int(0i32, 64i32)];
        proof {
            assert(fields@ =~= SvServerSettings::fields());
        }
        let v = match read_fields(warns, p, &fields) {
            Ok(v) => v,
            Err(e) => return Err(e),
        };
        let result = SvServerSettings::from_values(v.as_slice());
        p.finish(warns);
        Ok(result)
    }

    /// Writes the message into `p`; fails if it does not fit.
    pub fn encode(&self, p: Packer) -> (r: Result<Vec<u8>, CapacityError>)
        requires
            self.valid(),
        ensures
            (r is Ok) <==> p@.len() + encoding(self.items()).len() <= p.capacity(),
            r matches Ok(b) ==> b@ == p@ + encoding(self.items()),
    {
        let mut values: Vec<Value> = Vec::new();
        values.push(Value::Int(if self.kick_vote { 1 } else { 0 }));
        values.push(Value::Int(self.kick_min));
        values.push(Value::Int(if self.spec_vote { 1 } else { 0 }));
        values.push(Value::Int(if self.team_lock { 1 } else { 0 }));
        values.push(Value::Int(if self.team_balance { 1 } else { 0 }));
        values.push(Value::Int(self.player_slots));
        proof {
            assert(items_of(values@) =~= self.items());
            lemma_sv_server_settings_writable(*self);
        }
        let mut p = p;
        match write_values(&mut p, values.as_slice()) {
            Ok(()) => Ok(p.written()),
            Err(e) => Err(e),
        }
    }
}

/// A valid `SvServerSettings` fits its fields and its strings hold no NUL.
proof fn lemma_sv_server_settings_writable(x: SvServerSettings)
    requires
        x.valid(),
    ensures
        fits_msg(SvServerSettings::fields(), x.items()),
        writable(x.items()),
{
    assert forall|i: int| 0 <= i < 6 implies #[trigger] crate::gamenet::msg::accepts(SvServerSettings::fields()[i], x.items()[i]) && (x.items()[i] matches Item::Str(s) ==> no_nul(s)) by {
        if i == 0 {
            assert(x.items()[0] == Item::Int(bool_int(x.kick_vote)));
        } else if i == 1 {
            assert(x.items()[1] == Item::Int(x.kick_min));
        } else if i == 2 {
            assert(x.items()[2] == Item::Int(bool_int(x.spec_vote)));
        } else if i == 3 {
            assert(x.items()[3] == Item::Int(bool_int(x.team_lock)));
        } else if i == 4 {
            assert(x.items()[4] == Item::Int(bool_int(x.team_balance)));
        } else if i == 5 {
            assert(x.items()[5] == Item::Int(x.player_slots));
        }
    }
}

/// Reading the encoding of a valid `SvServerSettings`, followed by anything, gives
/// back its fields without warnings, and no other `SvServerSettings` has the same
/// fields.
pub proof fn lemma_sv_server_settings_roundtrip(x: SvServerSettings, y: SvServerSettings, rest: Seq<u8>)
    requires
        x.valid(),
    ensures
        parse(SvServerSettings::fields(), encoding(x.items()) + rest) == (Ok::<Seq<Item>, Error>(x.items()), rest, Seq::<Warning>::empty()),
        y.items() == x.items() ==> y == x,
{
    lemma_sv_server_settings_writable(x);
    lemma_parse_encoding(SvServerSettings::fields(), x.items(), rest);
    if y.items() == x.items() {
        assert(y.items()[0] == x.items()[0]);
        assert(y.items()[1] == x.items()[1]);
        assert(y.items()[2] == x.items()[2]);
        assert(y.items()[3] == x.items()[3]);
        assert(y.items()[4] == x.items()[4]);
        assert(y.items()[5] == x.items()[5]);
    }
}

impl<'a> SvClientInfo<'a> {
    /// The fields of the message, in the order they are sent.
    pub open spec fn items(self) -> Seq<Item> {
        seq![Item::Int(self.client_id), Item::Int(bool_int(self.local)), Item::Int(self.team.value()), Item::Str(self.name@), Item::Str(self.clan@), Item::Int(self.country), Item::Str(self.skin_part_names[0]@), Item::Str(self.skin_part_names[1]@), Item::Str(self.skin_part_names[2]@), Item::Str(self.skin_part_names[3]@), Item::Str(self.skin_part_names[4]@), Item::Str(self.skin_part_names[5]@), Item::Int(bool_int(self.use_custom_colors[0])), Item::Int(bool_int(self.use_custom_colors[1])), Item::Int(bool_int(self.use_custom_colors[2])), Item::Int(bool_int(self.use_custom_colors[3])), Item::Int(bool_int(self.use_custom_colors[4])), Item::Int(bool_int(self.use_custom_colors[5])), Item::Int(self.skin_part_colors[0]), Item::Int(self.skin_part_colors[1]), Item::Int(self.skin_part_colors[2]), Item::Int(self.skin_part_colors[3]), Item::Int(self.skin_part_colors[4]), Item::Int(self.skin_part_colors[5]), Item::Int(bool_int(self.silent))]
    }

    /// The kinds of the fields.
    pub open spec fn fields() -> Seq<Field> {
        seq![Field::Int(0i32, 63i32), Field::Int(0i32, 1i32), Field::Int(-1i32, 1i32), Field::Sanitized, Field::Sanitized, Field::Int(i32::MIN, i32::MAX), Field::Sanitized, Field::Sanitized, Field::Sanitized, Field::Sanitized, Field::Sanitized, Field::Sanitized, Field::Int(0i32, 1i32), Field::Int(0i32, 1i32), Field::Int(0i32, 1i32), Field::Int(0i32, 1i32), Field::Int(0i32, 1i32), Field::Int(0i32, 1i32), Field::Int(i32::MIN, i32::MAX), Field::Int(i32::MIN, i32::MAX), Field::Int(i32::MIN, i32::MAX), Field::Int(i32::MIN, i32::MAX), Field::Int(i32::MIN, i32::MAX), Field::Int(i32::MIN, i32::MAX), Field::Int(0i32, 1i32)]
    }

    /// The message can be sent: integers lie in their ranges and strings
    /// hold no NUL, sanitized ones no control characters.
    pub open spec fn valid(self) -> bool {
        &&& 0i32 <= self.client_id && self.client_id <= 63i32
        &&& no_control(self.name@)
        &&& no_control(self.clan@)
        &&& no_control(self.skin_part_names[0]@)
        &&& no_control(self.skin_part_names[1]@)
        &&& no_control(self.skin_part_names[2]@)
        &&& no_control(self.skin_part_names[3]@)
        &&& no_control(self.skin_part_names[4]@)
        &&& no_control(self.skin_part_names[5]@)
    }

    #[verifier::spinoff_prover]
    #[verifier::rlimit(100)]
    fn from_values(v: &[Value<'a>]) -> (r: SvClientInfo<'a>)
        requires
            fits_msg(SvClientInfo::fields(), items_of(v@)),
        ensures
            r.items() == items_of(v@),
    {
        proof {
            crate::gamenet::msg::lemma_value_at(SvClientInfo::fields(), v@, 0);
            crate::gamenet::msg::lemma_value_at(SvClientInfo::fields(), v@, 1);
            crate::gamenet::msg::lemma_value_at(SvClientInfo::fields(), v@, 2);
            crate::gamenet::msg::lemma_value_at(SvClientInfo::fields(), v@, 3);
            crate::gamenet::msg::lemma_value_at(SvClientInfo::fields(), v@, 4);
            crate::gamenet::msg::lemma_value_at(SvClientInfo::fields(), v@, 5);
            crate::gamenet::msg::lemma_value_at(SvClientInfo::fields(), v@, 6);
            crate::gamenet::msg::lemma_value_at(SvClientInfo::fields(), v@, 7);
            crate::gamenet::msg::lemma_value_at(SvClientInfo::fields(), v@, 8);
            crate::gamenet::msg::lemma_value_at(SvClientInfo::fields(), v@, 9);
            crate::gamenet::msg::lemma_value_at(SvClientInfo::fields(), v@, 10);
            crate::gamenet::msg::lemma_value_at(SvClientInfo::fields(), v@, 11);
            crate::gamenet::msg::lemma_value_at(SvClientInfo::fields(), v@, 12);
            crate::gamenet::msg::lemma_value_at(SvClientInfo::fields(), v@, 13);
            crate::gamenet::msg::lemma_value_at(SvClientInfo::fields(), v@, 14);
            crate::gamenet::msg::lemma_value_at(SvClientInfo::fields(), v@, 15);
            crate::gamenet::msg::lemma_value_at(SvClientInfo::fields(), v@, 16);
            crate::gamenet::msg::lemma_value_at(SvClientInfo::fields(), v@, 17);
            crate::gamenet::msg::lemma_value_at(SvClientInfo::fields(), v@, 18);
            crate::gamenet::msg::lemma_value_at(SvClientInfo::fields(), v@, 19);
            crate::gamenet::msg::lemma_value_at(SvClientInfo::fields(), v@, 20);
            crate::gamenet::msg::lemma_value_at(SvClientInfo::fields(), v@, 21);
            crate::gamenet::msg::lemma_value_at(SvClientInfo::fields(), v@, 22);
            crate::gamenet::msg::lemma_value_at(SvClientInfo::fields(), v@, 23);
            crate::gamenet::msg::lemma_value_at(SvClientInfo::fields(), v@, 24);
        }
        let e2 = int_at(v, 2);
        let team = match enums::Team::from_i32(e2) {
            Ok(e) => e,
            Err(_) => {
                proof {
                    assert(false);
                }
                enums::Team::Spectators
            },
        };
        proof {
            enums::lemma_team_values(team, e2);
        }
        let r = SvClientInfo {
            client_id: int_at(v, 0),
            local: int_at(v, 1) != 0,
            team,
            name: str_at(v, 3),
            clan: str_at(v, 4),
            country: int_at(v, 5),
            skin_part_names: [str_at(v, 6), str_at(v, 7), str_at(v, 8), str_at(v, 9), str_at(v, 10), str_at(v, 11)],
            use_custom_colors: [int_at(v, 12) != 0, int_at(v, 13) != 0, int_at(v, 14) != 0, int_at(v, 15) != 0, int_at(v, 16) != 0, int_at(v, 17) != 0],
            skin_part_colors: [int_at(v, 18), int_at(v, 19), int_at(v, 20), int_at(v, 21), int_at(v, 22), int_at(v, 23)],
            silent: int_at(v, 24) != 0,
        };
        proof {
            assert(r.items() =~= items_of(v@));
        }
        r
    }

    /// Reads the message from `p`; a message read in full warns about
    /// bytes left over, which it consumes.
    pub fn decode(warns: &mut Vec<Warning>, p: &mut Unpacker<'a>) -> (r: Result<SvClientInfo<'a>, Error>)
        ensures
            decoded_msg(
                SvClientInfo::fields(),
                old(p)@,
                final(p)@,
                old(warns)@,
                final(warns)@,
                match r {
                    Ok(x) => Ok(x.items()),
                    Err(e) => Err(e),
                },
            ),
    {
        let fields: [Field; 25] = [Field::Int(0i32, 63i32), Field::Int(0i32, 1i32), Field::Int(-1i32, 1i32), Field::Sanitized, Field::Sanitized, Field::Int(i32::MIN, i32::MAX), Field::Sanitized, Field::Sanitized, Field::Sanitized, Field::Sanitized, Field::Sanitized, Field::Sanitized, Field::Int(0i32, 1i32), Field::Int(0i32, 1i32), Field::Int(0i32, 1i32), Field::Int(0i32, 1i32), Field::Int(0i32, 1i32), Field::Int(0i32, 1i32), Field::Int(i32::MIN, i32::MAX), Field::Int(i32::MIN, i32::MAX), Field::Int(i32::MIN, i32::MAX), Field::Int(i32::MIN, i32::MAX), Field::Int(i32::MIN, i32::MAX), Field::Int(i32::MIN, i32::MAX), Field::Int(0i32, 1i32)];
        proof {
            assert(fields@ =~= SvClientInfo::fields());
        }
        let v = match read_fields(warns, p, &fields) {
            Ok(v) => v,
            Err(e) => return Err(e),
        };
        let result = SvClientInfo::from_values(v.as_slice());
        p.finish(warns);
        Ok(result)
    }

    /// Writes the message into `p`; fails if it does not fit.
    #[verifier::spinoff_prover]
    #[verifier::rlimit(100)]
    pub fn encode(&self, p: Packer) -> (r: Result<Vec<u8>, CapacityError>)
        requires
            self.valid(),
        ensures
            (r is Ok) <==> p@.len() + encoding(self.items()).len() <= p.capacity(),
            r matches Ok(b) ==> b@ == p@ + encoding(self.items()),
    {
        let mut values: Vec<Value> = Vec::new();
        values.push(Value::Int(self.client_id));
        values.push(Value::Int(if self.local { 1 } else { 0 }));
        values.push(Value::Int(self.team.to_i32()));
        values.push(Value::Str(self.name));
        values.push(Value::Str(self.clan));
        values.push(Value::Int(self.country));
        values.push(Value::Str(self.skin_part_names[0]));
        values.push(Value::Str(self.skin_part_names[1]));
        values.push(Value::Str(self.skin_part_names[2]));
        values.push(Value::Str(self.skin_part_names[3]));
        values.push(Value::Str(self.skin_part_names[4]));
        values.push(Value::Str(self.skin_part_names[5]));
        values.push(Value::Int(if self.use_custom_colors[0] { 1 } else { 0 }));
        values.push(Value::Int(if self.use_custom_colors[1] { 1 } else { 0 }));
        values.push(Value::Int(if self.use_custom_colors[2] { 1 } else { 0 }));
        values.push(Value::Int(if self.use_custom_colors[3] { 1 } else { 0 }));
        values.push(Value::Int(if self.use_custom_colors[4] { 1 } else { 0 }));
        values.push(Value::Int(if self.use_custom_colors[5] { 1 } else { 0 }));
        values.push(Value::Int(self.skin_part_colors[0]));
        values.push(Value::Int(self.skin_part_colors[1]));
        values.push(Value::Int(self.skin_part_colors[2]));
        values.push(Value::Int(self.skin_part_colors[3]));
        values.push(Value::Int(self.skin_part_colors[4]));
        values.push(Value::Int(self.skin_part_colors[5]));
        values.push(Value::Int(if self.silent { 1 } else { 0 }));
        proof {
            assert(items_of(values@) =~= self.items());
            lemma_sv_client_info_writable(*self);
        }
        let mut p = p;
        match write_values(&mut p, values.as_slice()) {
            Ok(()) => Ok(p.written()),
            Err(e) => Err(e),
        }
    }
}

/// A valid `SvClientInfo` fits its fields and its strings hold no NUL.
#[verifier::spinoff_prover]
#[verifier::rlimit(100)]
proof fn lemma_sv_client_info_writable<'a>(x: SvClientInfo<'a>)
    requires
        x.valid(),
    ensures
        fits_msg(SvClientInfo::fields(), x.items()),
        writable(x.items()),
{
    enums::lemma_team_values(x.team, 0);
    assert forall|i: int| 0 <= i < 25 implies #[trigger] crate::gamenet::msg::accepts(SvClientInfo::fields()[i], x.items()[i]) && (x.items()[i] matches Item::Str(s) ==> no_nul(s)) by {
        if i == 0 {
            assert(x.items()[0] == Item::Int(x.client_id));
        } else if i == 1 {
            assert(x.items()[1] == Item::Int(bool_int(x.local)));
        } else if i == 2 {
            assert(x.items()[2] == Item::Int(x.team.value()));
        } else if i == 3 {
            assert(x.items()[3] == Item::Str(x.name@));
            crate::gamenet::msg::lemma_no_control_no_nul(x.name@);
        } else if i == 4 {
            assert(x.items()[4] == Item::Str(x.clan@));
            crate::gamenet::msg::lemma_no_control_no_nul(x.clan@);
        } else if i == 5 {
            assert(x.items()[5] == Item::Int(x.country));
        } else if i == 6 {
            assert(x.items()[6] == Item::Str(x.skin_part_names[0]@));
            crate::gamenet::msg::lemma_no_control_no_nul(x.skin_part_names[0]@);
        } else if i == 7 {
            assert(x.items()[7] == Item::Str(x.skin_part_names[1]@));
            crate::gamenet::msg::lemma_no_control_no_nul(x.skin_part_names[1]@);
        } else if i == 8 {
            assert(x.items()[8] == Item::Str(x.skin_part_names[2]@));
            crate::gamenet::msg::lemma_no_control_no_nul(x.skin_part_names[2]@);
        } else if i == 9 {
            assert(x.items()[9] == Item::Str(x.skin_part_names[3]@));
            crate::gamenet::msg::lemma_no_control_no_nul(x.skin_part_names[3]@);
        } else if i == 10 {
            assert(x.items()[10] == Item::Str(x.skin_part_names[4]@));
            crate::gamenet::msg::lemma_no_control_no_nul(x.skin_part_names[4]@);
        } else if i == 11 {
            assert(x.items()[11] == Item::Str(x.skin_part_names[5]@));
            crate::gamenet::msg::lemma_no_control_no_nul(x.skin_part_names[5]@);
        } else if i == 12 {
            assert(x.items()[12] == Item::Int(bool_int(x.use_custom_colors[0])));
        } else if i == 13 {
            assert(x.items()[13] == Item::Int(bool_int(x.use_custom_colors[1])));
        } else if i == 14 {
            assert(x.items()[14] == Item::Int(bool_int(x.use_custom_colors[2])));
        } else if i == 15 {
            assert(x.items()[15] == Item::Int(bool_int(x.use_custom_colors[3])));
        } else if i == 16 {
            assert(x.items()[16] == Item::Int(bool_int(x.use_custom_colors[4])));
        } else if i == 17 {
            assert(x.items()[17] == Item::Int(bool_int(x.use_custom_colors[5])));
        } else if i == 18 {
            assert(x.items()[18] == Item::Int(x.skin_part_colors[0]));
        } else if i == 19 {
            assert(x.items()[19] == Item::Int(x.skin_part_colors[1]));
        } else if i == 20 {
            assert(x.items()[20] == Item::Int(x.skin_part_colors[2]));
        } else if i == 21 {
            assert(x.items()[21] == Item::Int(x.skin_part_colors[3]));
        } else if i == 22 {
            assert(x.items()[22] == Item::Int(x.skin_part_colors[4]));
        } else if i == 23 {
            assert(x.items()[23] == Item::Int(x.skin_part_colors[5]));
        } else if i == 24 {
            assert(x.items()[24] == Item::Int(bool_int(x.silent)));
        }
    }
}

/// Reading the encoding of a valid `SvClientInfo`, followed by anything, gives
/// back its fields without warnings, and no other `SvClientInfo` has the same
/// fields.
#[verifier::spinoff_prover]
#[verifier::rlimit(100)]
pub proof fn lemma_sv_client_info_roundtrip<'a>(x: SvClientInfo<'a>, y: SvClientInfo<'a>, rest: Seq<u8>)
    requires
        x.valid(),
    ensures
        parse(SvClientInfo::fields(), encoding(x.items()) + rest) == (Ok::<Seq<Item>, Error>(x.items()), rest, Seq::<Warning>::empty()),
        y.items() == x.items() ==> y == x,
{
    lemma_sv_client_info_writable(x);
    lemma_parse_encoding(SvClientInfo::fields(), x.items(), rest);
    if y.items() == x.items() {
        assert(y.items()[0] == x.items()[0]);
        assert(y.items()[1] == x.items()[1]);
        assert(y.items()[2] == x.items()[2]);
        enums::lemma_team_values(x.team, 0);
        enums::lemma_team_values(y.team, 0);
        assert(y.items()[3] == x.items()[3]);
        assert(y.name =~= x.name);
        assert(y.items()[4] == x.items()[4]);
        assert(y.clan =~= x.clan);
        assert(y.items()[5] == x.items()[5]);
        assert(y.items()[6] == x.items()[6]);
        assert(y.skin_part_names[0] =~= x.skin_part_names[0]);
        assert(y.items()[7] == x.items()[7]);
        assert(y.skin_part_names[1] =~= x.skin_part_names[1]);
        assert(y.items()[8] == x.items()[8]);
        assert(y.skin_part_names[2] =~= x.skin_part_names[2]);
        assert(y.items()[9] == x.items()[9]);
        assert(y.skin_part_names[3] =~= x.skin_part_names[3]);
        assert(y.items()[10] == x.items()[10]);
        assert(y.skin_part_names[4] =~= x.skin_part_names[4]);
        assert(y.items()[11] == x.items()[11]);
        assert(y.skin_part_names[5] =~= x.skin_part_names[5]);
        assert(y.skin_part_names =~= x.skin_part_names);
        assert(y.items()[12] == x.items()[12]);
        assert(y.items()[13] == x.items()[13]);
        assert(y.items()[14] == x.items()[14]);
        assert(y.items()[15] == x.items()[15]);
        assert(y.items()[16] == x.items()[16]);
        assert(y.items()[17] == x.items()[17]);
        assert(y.use_custom_colors =~= x.use_custom_colors);
        assert(y.items()[18] == x.items()[18]);
        assert(y.items()[19] == x.items()[19]);
        assert(y.items()[20] == x.items()[20]);
        assert(y.items()[21] == x.items()[21]);
        assert(y.items()[22] == x.items()[22]);
        assert(y.items()[23] == x.items()[23]);
        assert(y.skin_part_colors =~= x.skin_part_colors);
        assert(y.items()[24] == x.items()[24]);
    }
}

impl SvGameInfo {
    /// The fields of the message, in the order they are sent.
    pub open spec fn items(self) -> Seq<Item> {
        seq![Item::Int(self.game_flags), Item::Int(self.score_limit), Item::Int(self.time_limit), Item::Int(self.match_num), Item::Int(self.match_current)]
    }

    /// The kinds of the fields.
    pub open spec fn fields() -> Seq<Field> {
        seq![Field::Int(i32::MIN, i32::MAX), Field::Int(0i32, i32::MAX), Field::Int(0i32, i32::MAX), Field::Int(0i32, i32::MAX), Field::Int(0i32, i32::MAX)]
    }

    /// The message can be sent: integers lie in their ranges and strings
    /// hold no NUL, sanitized ones no control characters.
    pub open spec fn valid(self) -> bool {
        &&& 0i32 <= self.score_limit
        &&& 0i32 <= self.time_limit
        &&& 0i32 <= self.match_num
        &&& 0i32 <= self.match_current
    }

    fn from_values(v: &[Value]) -> (r: SvGameInfo)
        requires
            fits_msg(SvGameInfo::fields(), items_of(v@)),
        ensures
            r.items() == items_of(v@),
    {
        proof {
            crate::gamenet::msg::lemma_value_at(SvGameInfo::fields(), v@, 0);
            crate::gamenet::msg::lemma_value_at(SvGameInfo::fields(), v@, 1);
            crate::gamenet::msg::lemma_value_at(SvGameInfo::fields(), v@, 2);
            crate::gamenet::msg::lemma_value_at(SvGameInfo::fields(), v@, 3);
            crate::gamenet::msg::lemma_value_at(SvGameInfo::fields(), v@, 4);
        }
        let r = SvGameInfo {
            game_flags: int_at(v, 0),
            score_limit: int_at(v, 1),
            time_limit: int_at(v, 2),
            match_num: int_at(v, 3),
            match_current: int_at(v, 4),
        };
        proof {
            assert(r.items() =~= items_of(v@));
        }
        r
    }

    /// Reads the message from `p`; a message read in full warns about
    /// bytes left over, which it consumes.
    pub fn decode(warns: &mut Vec<Warning>, p: &mut Unpacker) -> (r: Result<SvGameInfo, Error>)
        ensures
            decoded_msg(
                SvGameInfo::fields(),
                old(p)@,
                final(p)@,
                old(warns)@,
                final(warns)@,
                match r {
                    Ok(x) => Ok(x.items()),
                    Err(e) => Err(e),
                },
            ),
    {
        let fields: [Field; 5] = [Field::Int(i32::MIN, i32::MAX), Field::Int(0i32, i32::MAX), Field::Int(0i32, i32::MAX), Field::Int(0i32, i32::MAX), Field::Int(0i32, i32::MAX)];
        proof {
            assert(fields@ =~= SvGameInfo::fields());
        }
        let v = match read_fields(warns, p, &fields) {
            Ok(v) => v,
            Err(e) => return Err(e),
        };
        let result = SvGameInfo::from_values(v.as_slice());
        p.finish(warns);
        Ok(result)
    }

    /// Writes the message into `p`; fails if it does not fit.
    pub fn encode(&self, p: Packer) -> (r: Result<Vec<u8>, CapacityError>)
        requires
            self.valid(),
        ensures
            (r is Ok) <==> p@.len() + encoding(self.items()).len() <= p.capacity(),
            r matches Ok(b) ==> b@ == p@ + encoding(self.items()),
    {
        let mut values: Vec<Value> = Vec::new();
        values.push(Value::Int(self.game_flags));
        values.push(Value::Int(self.score_limit));
        values.push(Value::Int(self.time_limit));
        values.push(Value::Int(self.match_num));
        values.push(Value::Int(self.match_current));
        proof {
            assert(items_of(values@) =~= self.items());
            lemma_sv_game_info_writable(*self);
        }
        let mut p = p;
        match write_values(&mut p, values.as_slice()) {
            Ok(()) => Ok(p.written()),
            Err(e) => Err(e),
        }
    }
}

/// A valid `SvGameInfo` fits its fields and its strings hold no NUL.
proof fn lemma_sv_game_info_writable(x: SvGameInfo)
    requires
        x.valid(),
    ensures
        fits_msg(SvGameInfo::fields(), x.items()),
        writable(x.items()),
{
    assert forall|i: int| 0 <= i < 5 implies #[trigger] crate::gamenet::msg::accepts(SvGameInfo::fields()[i], x.items()[i]) && (x.items()[i] matches Item::Str(s) ==> no_nul(s)) by {
        if i == 0 {
            assert(x.items()[0] == Item::Int(x.game_flags));
        } else if i == 1 {
            assert(x.items()[1] == Item::Int(x.score_limit));
        } else if i == 2 {
            assert(x.items()[2] == Item::Int(x.time_limit));
        } else if i == 3 {
            assert(x.items()[3] == Item::Int(x.match_num));
        } else if i == 4 {
            assert(x.items()[4] == Item::Int(x.match_current));
        }
    }
}

/// Reading the encoding of a valid `SvGameInfo`, followed by anything, gives
/// back its fields without warnings, and no other `SvGameInfo` has the same
/// fields.
pub proof fn lemma_sv_game_info_roundtrip(x: SvGameInfo, y: SvGameInfo, rest: Seq<u8>)
    requires
        x.valid(),
    ensures
        parse(SvGameInfo::fields(), encoding(x.items()) + rest) == (Ok::<Seq<Item>, Error>(x.items()), rest, Seq::<Warning>::empty()),
        y.items() == x.items() ==> y == x,
{
    lemma_sv_game_info_writable(x);
    lemma_parse_encoding(SvGameInfo::fields(), x.items(), rest);
    if y.items() == x.items() {
        assert(y.items()[0] == x.items()[0]);
        assert(y.items()[1] == x.items()[1]);
        assert(y.items()[2] == x.items()[2]);
        assert(y.items()[3] == x.items()[3]);
        assert(y.items()[4] == x.items()[4]);
    }
}

impl<'a> SvClientDrop<'a> {
    /// The fields of the message, in the order they are sent.
    pub open spec fn items(self) -> Seq<Item> {
        seq![Item::Int(self.client_id), Item::Str(self.reason@), Item::Int(bool_int(self.silent))]
    }

    /// The kinds of the fields.
    pub open spec fn fields() -> Seq<Field> {
        seq![Field::Int(0i32, 63i32), Field::Sanitized, Field::Int(0i32, 1i32)]
    }

    /// The message can be sent: integers lie in their ranges and strings
    /// hold no NUL, sanitized ones no control characters.
    pub open spec fn valid(self) -> bool {
        &&& 0i32 <= self.client_id && self.client_id <= 63i32
        &&& no_control(self.reason@)
    }

    fn from_values(v: &[Value<'a>]) -> (r: SvClientDrop<'a>)
        requires
            fits_msg(SvClientDrop::fields(), items_of(v@)),
        ensures
            r.items() == items_of(v@),
    {
        proof {
            crate::gamenet::msg::lemma_value_at(SvClientDrop::fields(), v@, 0);
            crate::gamenet::msg::lemma_value_at(SvClientDrop::fields(), v@, 1);
            crate::gamenet::msg::lemma_value_at(SvClientDrop::fields(), v@, 2);
        }
        let r = SvClientDrop {
            client_id: int_at(v, 0),
            reason: str_at(v, 1),
            silent: int_at(v, 2) != 0,
        };
        proof {
            assert(r.items() =~= items_of(v@));
        }
        r
    }

    /// Reads the message from `p`; a message read in full warns about
    /// bytes left over, which it consumes.
    pub fn decode(warns: &mut Vec<Warning>, p: &mut Unpacker<'a>) -> (r: Result<SvClientDrop<'a>, Error>)
        ensures
            decoded_msg(
                SvClientDrop::fields(),
                old(p)@,
                final(p)@,
                old(warns)@,
                final(warns)@,
                match r {
                    Ok(x) => Ok(x.items()),
                    Err(e) => Err(e),
                },
            ),
    {
        let fields: [Field; 3] = [Field::Int(0i32, 63i32), Field::Sanitized, Field::Int(0i32, 1i32)];
        proof {
            assert(fields@ =~= SvClientDrop::fields());
        }
        let v = match read_fields(warns, p, &fields) {
            Ok(v) => v,
            Err(e) => return Err(e),
        };
        let result = SvClientDrop::from_values(v.as_slice());
        p.finish(warns);
        Ok(result)
    }

    /// Writes the message into `p`; fails if it does not fit.
    pub fn encode(&self, p: Packer) -> (r: Result<Vec<u8>, CapacityError>)
        requires
            self.valid(),
        ensures
            (r is Ok) <==> p@.len() + encoding(self.items()).len() <= p.capacity(),
            r matches Ok(b) ==> b@ == p@ + encoding(self.items()),
    {
        let mut values: Vec<Value> = Vec::new();
        values.push(Value::Int(self.client_id));
        values.push(Value::Str(self.reason));
        values.push(Value::Int(if self.silent { 1 } else { 0 }));
        proof {
            assert(items_of(values@) =~= self.items());
            lemma_sv_client_drop_writable(*self);
        }
        let mut p = p;
        match write_values(&mut p, values.as_slice()) {
            Ok(()) => Ok(p.written()),
            Err(e) => Err(e),
        }
    }
}

/// A valid `SvClientDrop` fits its fields and its strings hold no NUL.
proof fn lemma_sv_client_drop_writable<'a>(x: SvClientDrop<'a>)
    requires
        x.valid(),
    ensures
        fits_msg(SvClientDrop::fields(), x.items()),
        writable(x.items()),
{
    assert forall|i: int| 0 <= i < 3 implies #[trigger] crate::gamenet::msg::accepts(SvClientDrop::fields()[i], x.items()[i]) && (x.items()[i] matches Item::Str(s) ==> no_nul(s)) by {
        if i == 0 {
            assert(x.items()[0] == Item::Int(x.client_id));
        } else if i == 1 {
            assert(x.items()[1] == Item::Str(x.reason@));
            crate::gamenet::msg::lemma_no_control_no_nul(x.reason@);
        } else if i == 2 {
            assert(x.items()[2] == Item::Int(bool_int(x.silent)));
        }
    }
}

/// Reading the encoding of a valid `SvClientDrop`, followed by anything, gives
/// back its fields without warnings, and no other `SvClientDrop` has the same
/// fields.
pub proof fn lemma_sv_client_drop_roundtrip<'a>(x: SvClientDrop<'a>, y: SvClientDrop<'a>, rest: Seq<u8>)
    requires
        x.valid(),
    ensures
        parse(SvClientDrop::fields(), encoding(x.items()) + rest) == (Ok::<Seq<Item>, Error>(x.items()), rest, Seq::<Warning>::empty()),
        y.items() == x.items() ==> y == x,
{
    lemma_sv_client_drop_writable(x);
    lemma_parse_encoding(SvClientDrop::fields(), x.items(), rest);
    if y.items() == x.items() {
        assert(y.items()[0] == x.items()[0]);
        assert(y.items()[1] == x.items()[1]);
        assert(y.reason =~= x.reason);
        assert(y.items()[2] == x.items()[2]);
    }
}

impl SvGameMsg {
    /// The fields of the message, in the order they are sent.
    pub open spec fn items(self) -> Seq<Item> {
        Seq::empty()
    }

    /// The kinds of the fields.
    pub open spec fn fields() -> Seq<Field> {
        Seq::empty()
    }

    /// The message can be sent: integers lie in their ranges and strings
    /// hold no NUL, sanitized ones no control characters.
    pub open spec fn valid(self) -> bool {
        true
    }

    fn from_values(v: &[Value]) -> (r: SvGameMsg)
        requires
            fits_msg(SvGameMsg::fields(), items_of(v@)),
        ensures
            r.items() == items_of(v@),
    {
        let r = SvGameMsg;
        proof {
            assert(r.items() =~= items_of(v@));
        }
        r
    }

    /// Reads the message from `p`; a message read in full warns about
    /// bytes left over, which it consumes.
    pub fn decode(warns: &mut Vec<Warning>, p: &mut Unpacker) -> (r: Result<SvGameMsg, Error>)
        ensures
            decoded_msg(
                SvGameMsg::fields(),
                old(p)@,
                final(p)@,
                old(warns)@,
                final(warns)@,
                match r {
                    Ok(x) => Ok(x.items()),
                    Err(e) => Err(e),
                },
            ),
    {
        let fields: [Field; 0] = [];
        proof {
            assert(fields@ =~= SvGameMsg::fields());
        }
        let v = match read_fields(warns, p, &fields) {
            Ok(v) => v,
            Err(e) => return Err(e),
        };
        let result = SvGameMsg::from_values(v.as_slice());
        p.finish(warns);
        Ok(result)
    }

    /// Writes the message into `p`; fails if it does not fit.
    pub fn encode(&self, p: Packer) -> (r: Result<Vec<u8>, CapacityError>)
        ensures
            (r is Ok) <==> p@.len() + encoding(self.items()).len() <= p.capacity(),
            r matches Ok(b) ==> b@ == p@ + encoding(self.items()),
    {
        let mut values: Vec<Value> = Vec::new();
        proof {
            assert(items_of(values@) =~= self.items());
            lemma_sv_game_msg_writable(*self);
        }
        let mut p = p;
        match write_values(&mut p, values.as_slice()) {
            Ok(()) => Ok(p.written()),
            Err(e) => Err(e),
        }
    }
}

/// A valid `SvGameMsg` fits its fields and its strings hold no NUL.
proof fn lemma_sv_game_msg_writable(x: SvGameMsg)
    requires
        x.valid(),
    ensures
        fits_msg(SvGameMsg::fields(), x.items()),
        writable(x.items()),
{
}

/// Reading the encoding of a valid `SvGameMsg`, followed by anything, gives
/// back its fields without warnings, and no other `SvGameMsg` has the same
/// fields.
pub proof fn lemma_sv_game_msg_roundtrip(x: SvGameMsg, y: SvGameMsg, rest: Seq<u8>)
    requires
        x.valid(),
    ensures
        parse(SvGameMsg::fields(), encoding(x.items()) + rest) == (Ok::<Seq<Item>, Error>(x.items()), rest, Seq::<Warning>::empty()),
        y.items() == x.items() ==> y == x,
{
    lemma_sv_game_msg_writable(x);
    lemma_parse_encoding(SvGameMsg::fields(), x.items(), rest);
    if y.items() == x.items() {
    }
}

impl<'a> DeClientEnter<'a> {
    /// The fields of the message, in the order they are sent.
    pub open spec fn items(self) -> Seq<Item> {
        seq![Item::Str(self.name@), Item::Int(self.client_id), Item::Int(self.team.value())]
    }

    /// The kinds of the fields.
    pub open spec fn fields() -> Seq<Field> {
        seq![Field::Sanitized, Field::Int(-1i32, 63i32), Field::Int(-1i32, 1i32)]
    }

    /// The message can be sent: integers lie in their ranges and strings
    /// hold no NUL, sanitized ones no control characters.
    pub open spec fn valid(self) -> bool {
        &&& no_control(self.name@)
        &&& -1i32 <= self.client_id && self.client_id <= 63i32
    }

    fn from_values(v: &[Value<'a>]) -> (r: DeClientEnter<'a>)
        requires
            fits_msg(DeClientEnter::fields(), items_of(v@)),
        ensures
            r.items() == items_of(v@),
    {
        proof {
            crate::gamenet::msg::lemma_value_at(DeClientEnter::fields(), v@, 0);
            crate::gamenet::msg::lemma_value_at(DeClientEnter::fields(), v@, 1);
            crate::gamenet::msg::lemma_value_at(DeClientEnter::fields(), v@, 2);
        }
        let e2 = int_at(v, 2);
        let team = match enums::Team::from_i32(e2) {
            Ok(e) => e,
            Err(_) => {
                proof {
                    assert(false);
                }
                enums::Team::Spectators
            },
        };
        proof {
            enums::lemma_team_values(team, e2);
        }
        let r = DeClientEnter {
            name: str_at(v, 0),
            client_id: int_at(v, 1),
            team,
        };
        proof {
            assert(r.items() =~= items_of(v@));
        }
        r
    }

    /// Reads the message from `p`; a message read in full warns about
    /// bytes left over, which it consumes.
    pub fn decode(warns: &mut Vec<Warning>, p: &mut Unpacker<'a>) -> (r: Result<DeClientEnter<'a>, Error>)
        ensures
            decoded_msg(
                DeClientEnter::fields(),
                old(p)@,
                final(p)@,
                old(warns)@,
                final(warns)@,
                match r {
                    Ok(x) => Ok(x.items()),
                    Err(e) => Err(e),
                },
            ),
    {
        let fields: [Field; 3] = [Field::Sanitized, Field::Int(-1i32, 63i32), Field::Int(-1i32, 1i32)];
        proof {
            assert(fields@ =~= DeClientEnter::fields());
        }
        let v = match read_fields(warns, p, &fields) {
            Ok(v) => v,
            Err(e) => return Err(e),
        };
        let result = DeClientEnter::from_values(v.as_slice());
        p.finish(warns);
        Ok(result)
    }

    /// Writes the message into `p`; fails if it does not fit.
    pub fn encode(&self, p: Packer) -> (r: Result<Vec<u8>, CapacityError>)
        requires
            self.valid(),
        ensures
            (r is Ok) <==> p@.len() + encoding(self.items()).len() <= p.capacity(),
            r matches Ok(b) ==> b@ == p@ + encoding(self.items()),
    {
        let mut values: Vec<Value> = Vec::new();
        values.push(Value::Str(self.name));
        values.push(Value::Int(self.client_id));
        values.push(Value::Int(self.team.to_i32()));
        proof {
            assert(items_of(values@) =~= self.items());
            lemma_de_client_enter_writable(*self);
        }
        let mut p = p;
        match write_values(&mut p, values.as_slice()) {
            Ok(()) => Ok(p.written()),
            Err(e) => Err(e),
        }
    }
}

/// A valid `DeClientEnter` fits its fields and its strings hold no NUL.
proof fn lemma_de_client_enter_writable<'a>(x: DeClientEnter<'a>)
    requires
        x.valid(),
    ensures
        fits_msg(DeClientEnter::fields(), x.items()),
        writable(x.items()),
{
    enums::lemma_team_values(x.team, 0);
    assert forall|i: int| 0 <= i < 3 implies #[trigger] crate::gamenet::msg::accepts(DeClientEnter::fields()[i], x.items()[i]) && (x.items()[i] matches Item::Str(s) ==> no_nul(s)) by {
        if i == 0 {
            assert(x.items()[0] == Item::Str(x.name@));
            crate::gamenet::msg::lemma_no_control_no_nul(x.name@);
        } else if i == 1 {
            assert(x.items()[1] == Item::Int(x.client_id));
        } else if i == 2 {
            assert(x.items()[2] == Item::Int(x.team.value()));
        }
    }
}

/// Reading the encoding of a valid `DeClientEnter`, followed by anything, gives
/// back its fields without warnings, and no other `DeClientEnter` has the same
/// fields.
pub proof fn lemma_de_client_enter_roundtrip<'a>(x: DeClientEnter<'a>, y: DeClientEnter<'a>, rest: Seq<u8>)
    requires
        x.valid(),
    ensures
        parse(DeClientEnter::fields(), encoding(x.items()) + rest) == (Ok::<Seq<Item>, Error>(x.items()), rest, Seq::<Warning>::empty()),
        y.items() == x.items() ==> y == x,
{
    lemma_de_client_enter_writable(x);
    lemma_parse_encoding(DeClientEnter::fields(), x.items(), rest);
    if y.items() == x.items() {
        assert(y.items()[0] == x.items()[0]);
        assert(y.name =~= x.name);
        assert(y.items()[1] == x.items()[1]);
        assert(y.items()[2] == x.items()[2]);
        enums::lemma_team_values(x.team, 0);
        enums::lemma_team_values(y.team, 0);
    }
}

impl<'a> DeClientLeave<'a> {
    /// The fields of the message, in the order they are sent.
    pub open spec fn items(self) -> Seq<Item> {
        seq![Item::Str(self.name@), Item::Int(self.client_id), Item::Str(self.reason@)]
    }

    /// The kinds of the fields.
    pub open spec fn fields() -> Seq<Field> {
        seq![Field::Sanitized, Field::Int(-1i32, 63i32), Field::Sanitized]
    }

    /// The message can be sent: integers lie in their ranges and strings
    /// hold no NUL, sanitized ones no control characters.
    pub open spec fn valid(self) -> bool {
        &&& no_control(self.name@)
        &&& -1i32 <= self.client_id && self.client_id <= 63i32
        &&& no_control(self.reason@)
    }

    fn from_values(v: &[Value<'a>]) -> (r: DeClientLeave<'a>)
        requires
            fits_msg(DeClientLeave::fields(), items_of(v@)),
        ensures
            r.items() == items_of(v@),
    {
        proof {
            crate::gamenet::msg::lemma_value_at(DeClientLeave::fields(), v@, 0);
            crate::gamenet::msg::lemma_value_at(DeClientLeave::fields(), v@, 1);
            crate::gamenet::msg::lemma_value_at(DeClientLeave::fields(), v@, 2);
        }
        let r = DeClientLeave {
            name: str_at(v, 0),
            client_id: int_at(v, 1),
            reason: str_at(v, 2),
        };
        proof {
            assert(r.items() =~= items_of(v@));
        }
        r
    }

    /// Reads the message from `p`; a message read in full warns about
    /// bytes left over, which it consumes.
    pub fn decode(warns: &mut Vec<Warning>, p: &mut Unpacker<'a>) -> (r: Result<DeClientLeave<'a>, Error>)
        ensures
            decoded_msg(
                DeClientLeave::fields(),
                old(p)@,
                final(p)@,
                old(warns)@,
                final(warns)@,
                match r {
                    Ok(x) => Ok(x.items()),
                    Err(e) => Err(e),
                },
            ),
    {
        let fields: [Field; 3] = [Field::Sanitized, Field::Int(-1i32, 63i32), Field::Sanitized];
        proof {
            assert(fields@ =~= DeClientLeave::fields());
        }
        let v = match read_fields(warns, p, &fields) {
            Ok(v) => v,
            Err(e) => return Err(e),
        };
        let result = DeClientLeave::from_values(v.as_slice());
        p.finish(warns);
        Ok(result)
    }

    /// Writes the message into `p`; fails if it does not fit.
    pub fn encode(&self, p: Packer) -> (r: Result<Vec<u8>, CapacityError>)
        requires
            self.valid(),
        ensures
            (r is Ok) <==> p@.len() + encoding(self.items()).len() <= p.capacity(),
            r matches Ok(b) ==> b@ == p@ + encoding(self.items()),
    {
        let mut values: Vec<Value> = Vec::new();
        values.push(Value::Str(self.name));
        values.push(Value::Int(self.client_id));
        values.push(Value::Str(self.reason));
        proof {
            assert(items_of(values@) =~= self.items());
            lemma_de_client_leave_writable(*self);
        }
        let mut p = p;
        match write_values(&mut p, values.as_slice()) {
            Ok(()) => Ok(p.written()),
            Err(e) => Err(e),
        }
    }
}

/// A valid `DeClientLeave` fits its fields and its strings hold no NUL.
proof fn lemma_de_client_leave_writable<'a>(x: DeClientLeave<'a>)
    requires
        x.valid(),
    ensures
        fits_msg(DeClientLeave::fields(), x.items()),
        writable(x.items()),
{
    assert forall|i: int| 0 <= i < 3 implies #[trigger] crate::gamenet::msg::accepts(DeClientLeave::fields()[i], x.items()[i]) && (x.items()[i] matches Item::Str(s) ==> no_nul(s)) by {
        if i == 0 {
            assert(x.items()[0] == Item::Str(x.name@));
            crate::gamenet::msg::lemma_no_control_no_nul(x.name@);
        } else if i == 1 {
            assert(x.items()[1] == Item::Int(x.client_id));
        } else if i == 2 {
            assert(x.items()[2] == Item::Str(x.reason@));
            crate::gamenet::msg::lemma_no_control_no_nul(x.reason@);
        }
    }
}

/// Reading the encoding of a valid `DeClientLeave`, followed by anything, gives
/// back its fields without warnings, and no other `DeClientLeave` has the same
/// fields.
pub proof fn lemma_de_client_leave_roundtrip<'a>(x: DeClientLeave<'a>, y: DeClientLeave<'a>, rest: Seq<u8>)
    requires
        x.valid(),
    ensures
        parse(DeClientLeave::fields(), encoding(x.items()) + rest) == (Ok::<Seq<Item>, Error>(x.items()), rest, Seq::<Warning>::empty()),
        y.items() == x.items() ==> y == x,
{
    lemma_de_client_leave_writable(x);
    lemma_parse_encoding(DeClientLeave::fields(), x.items(), rest);
    if y.items() == x.items() {
        assert(y.items()[0] == x.items()[0]);
        assert(y.name =~= x.name);
        assert(y.items()[1] == x.items()[1]);
        assert(y.items()[2] == x.items()[2]);
        assert(y.reason =~= x.reason);
    }
}

impl<'a> ClSay<'a> {
    /// The fields of the message, in the order they are sent.
    pub open spec fn items(self) -> Seq<Item> {
        seq![Item::Int(self.mode.value()), Item::Int(self.target), Item::Str(self.message@)]
    }

    /// The kinds of the fields.
    pub open spec fn fields() -> Seq<Field> {
        seq![Field::Int(0i32, 3i32), Field::Int(-1i32, 63i32), Field::Sanitized]
    }

    /// The message can be sent: integers lie in their ranges and strings
    /// hold no NUL, sanitized ones no control characters.
    pub open spec fn valid(self) -> bool {
        &&& -1i32 <= self.target && self.target <= 63i32
        &&& no_control(self.message@)
    }

    fn from_values(v: &[Value<'a>]) -> (r: ClSay<'a>)
        requires
            fits_msg(ClSay::fields(), items_of(v@)),
        ensures
            r.items() == items_of(v@),
    {
        proof {
            crate::gamenet::msg::lemma_value_at(ClSay::fields(), v@, 0);
            crate::gamenet::msg::lemma_value_at(ClSay::fields(), v@, 1);
            crate::gamenet::msg::lemma_value_at(ClSay::fields(), v@, 2);
        }
        let e0 = int_at(v, 0);
        let mode = match enums::Chat::from_i32(e0) {
            Ok(e) => e,
            Err(_) => {
                proof {
                    assert(false);
                }
                enums::Chat::None_
            },
        };
        proof {
            enums::lemma_chat_values(mode, e0);
        }
        let r = ClSay {
            mode,
            target: int_at(v, 1),
            message: str_at(v, 2),
        };
        proof {
            assert(r.items() =~= items_of(v@));
        }
        r
    }

    /// Reads the message from `p`; a message read in full warns about
    /// bytes left over, which it consumes.
    pub fn decode(warns: &mut Vec<Warning>, p: &mut Unpacker<'a>) -> (r: Result<ClSay<'a>, Error>)
        ensures
            decoded_msg(
                ClSay::fields(),
                old(p)@,
                final(p)@,
                old(warns)@,
                final(warns)@,
                match r {
                    Ok(x) => Ok(x.items()),
                    Err(e) => Err(e),
                },
            ),
    {
        let fields: [Field; 3] = [Field::Int(0i32, 3i32), Field::Int(-1i32, 63i32), Field::Sanitized];
        proof {
            assert(fields@ =~= ClSay::fields());
        }
        let v = match read_fields(warns, p, &fields) {
            Ok(v) => v,
            Err(e) => return Err(e),
        };
        let result = ClSay::from_values(v.as_slice());
        p.finish(warns);
        Ok(result)
    }

    /// Writes the message into `p`; fails if it does not fit.
    pub fn encode(&self, p: Packer) -> (r: Result<Vec<u8>, CapacityError>)
        requires
            self.valid(),
        ensures
            (r is Ok) <==> p@.len() + encoding(self.items()).len() <= p.capacity(),
            r matches Ok(b) ==> b@ == p@ + encoding(self.items()),
    {
        let mut values: Vec<Value> = Vec::new();
        values.push(Value::Int(self.mode.to_i32()));
        values.push(Value::Int(self.target));
        values.push(Value::Str(self.message));
        proof {
            assert(items_of(values@) =~= self.items());
            lemma_cl_say_writable(*self);
        }
        let mut p = p;
        match write_values(&mut p, values.as_slice()) {
            Ok(()) => Ok(p.written()),
            Err(e) => Err(e),
        }
    }
}

/// A valid `ClSay` fits its fields and its strings hold no NUL.
proof fn lemma_cl_say_writable<'a>(x: ClSay<'a>)
    requires
        x.valid(),
    ensures
        fits_msg(ClSay::fields(), x.items()),
        writable(x.items()),
{
    enums::lemma_chat_values(x.mode, 0);
    assert forall|i: int| 0 <= i < 3 implies #[trigger] crate::gamenet::msg::accepts(ClSay::fields()[i], x.items()[i]) && (x.items()[i] matches Item::Str(s) ==> no_nul(s)) by {
        if i == 0 {
            assert(x.items()[0] == Item::Int(x.mode.value()));
        } else if i == 1 {
            assert(x.items()[1] == Item::Int(x.target));
        } else if i == 2 {
            assert(x.items()[2] == Item::Str(x.message@));
            crate::gamenet::msg::lemma_no_control_no_nul(x.message@);
        }
    }
}

/// Reading the encoding of a valid `ClSay`, followed by anything, gives
/// back its fields without warnings, and no other `ClSay` has the same
/// fields.
pub proof fn lemma_cl_say_roundtrip<'a>(x: ClSay<'a>, y: ClSay<'a>, rest: Seq<u8>)
    requires
        x.valid(),
    ensures
        parse(ClSay::fields(), encoding(x.items()) + rest) == (Ok::<Seq<Item>, Error>(x.items()), rest, Seq::<Warning>::empty()),
        y.items() == x.items() ==> y == x,
{
    lemma_cl_say_writable(x);
    lemma_parse_encoding(ClSay::fields(), x.items(), rest);
    if y.items() == x.items() {
        assert(y.items()[0] == x.items()[0]);
        enums::lemma_chat_values(x.mode, 0);
        enums::lemma_chat_values(y.mode, 0);
        assert(y.items()[1] == x.items()[1]);
        assert(y.items()[2] == x.items()[2]);
        assert(y.message =~= x.message);
    }
}

impl ClSetTeam {
    /// The fields of the message, in the order they are sent.
    pub open spec fn items(self) -> Seq<Item> {
        seq![Item::Int(self.team.value())]
    }

    /// The kinds of the fields.
    pub open spec fn fields() -> Seq<Field> {
        seq![Field::Int(-1i32, 1i32)]
    }

    /// The message can be sent: integers lie in their ranges and strings
    /// hold no NUL, sanitized ones no control characters.
    pub open spec fn valid(self) -> bool {
        true
    }

    fn from_values(v: &[Value]) -> (r: ClSetTeam)
        requires
            fits_msg(ClSetTeam::fields(), items_of(v@)),
        ensures
            r.items() == items_of(v@),
    {
        proof {
            crate::gamenet::msg::lemma_value_at(ClSetTeam::fields(), v@, 0);
        }
        let e0 = int_at(v, 0);
        let team = match enums::Team::from_i32(e0) {
            Ok(e) => e,
            Err(_) => {
                proof {
                    assert(false);
                }
                enums::Team::Spectators
            },
        };
        proof {
            enums::lemma_team_values(team, e0);
        }
        let r = ClSetTeam {
            team,
        };
        proof {
            assert(r.items() =~= items_of(v@));
        }
        r
    }

    /// Reads the message from `p`; a message read in full warns about
    /// bytes left over, which it consumes.
    pub fn decode(warns: &mut Vec<Warning>, p: &mut Unpacker) -> (r: Result<ClSetTeam, Error>)
        ensures
            decoded_msg(
                ClSetTeam::fields(),
                old(p)@,
                final(p)@,
                old(warns)@,
                final(warns)@,
                match r {
                    Ok(x) => Ok(x.items()),
                    Err(e) => Err(e),
                },
            ),
    {
        let fields: [Field; 1] = [Field::Int(-1i32, 1i32)];
        proof {
            assert(fields@ =~= ClSetTeam::fields());
        }
        let v = match read_fields(warns, p, &fields) {
            Ok(v) => v,
            Err(e) => return Err(e),
        };
        let result = ClSetTeam::from_values(v.as_slice());
        p.finish(warns);
        Ok(result)
    }

    /// Writes the message into `p`; fails if it does not fit.
    pub fn encode(&self, p: Packer) -> (r: Result<Vec<u8>, CapacityError>)
        ensures
            (r is Ok) <==> p@.len() + encoding(self.items()).len() <= p.capacity(),
            r matches Ok(b) ==> b@ == p@ + encoding(self.items()),
    {
        let mut values: Vec<Value> = Vec::new();
        values.push(Value::Int(self.team.to_i32()));
        proof {
            assert(items_of(values@) =~= self.items());
            lemma_cl_set_team_writable(*self);
        }
        let mut p = p;
        match write_values(&mut p, values.as_slice()) {
            Ok(()) => Ok(p.written()),
            Err(e) => Err(e),
        }
    }
}

/// A valid `ClSetTeam` fits its fields and its strings hold no NUL.
proof fn lemma_cl_set_team_writable(x: ClSetTeam)
    requires
        x.valid(),
    ensures
        fits_msg(ClSetTeam::fields(), x.items()),
        writable(x.items()),
{
    enums::lemma_team_values(x.team, 0);
    assert forall|i: int| 0 <= i < 1 implies #[trigger] crate::gamenet::msg::accepts(ClSetTeam::fields()[i], x.items()[i]) && (x.items()[i] matches Item::Str(s) ==> no_nul(s)) by {
        if i == 0 {
            assert(x.items()[0] == Item::Int(x.team.value()));
        }
    }
}

/// Reading the encoding of a valid `ClSetTeam`, followed by anything, gives
/// back its fields without warnings, and no other `ClSetTeam` has the same
/// fields.
pub proof fn lemma_cl_set_team_roundtrip(x: ClSetTeam, y: ClSetTeam, rest: Seq<u8>)
    requires
        x.valid(),
    ensures
        parse(ClSetTeam::fields(), encoding(x.items()) + rest) == (Ok::<Seq<Item>, Error>(x.items()), rest, Seq::<Warning>::empty()),
        y.items() == x.items() ==> y == x,
{
    lemma_cl_set_team_writable(x);
    lemma_parse_encoding(ClSetTeam::fields(), x.items(), rest);
    if y.items() == x.items() {
        assert(y.items()[0] == x.items()[0]);
        enums::lemma_team_values(x.team, 0);
        enums::lemma_team_values(y.team, 0);
    }
}

impl ClSetSpectatorMode {
    /// The fields of the message, in the order they are sent.
    pub open spec fn items(self) -> Seq<Item> {
        seq![Item::Int(self.spec_mode.value()), Item::Int(self.spectator_id)]
    }

    /// The kinds of the fields.
    pub open spec fn fields() -> Seq<Field> {
        seq![Field::Int(0i32, 3i32), Field::Int(-1i32, 63i32)]
    }

    /// The message can be sent: integers lie in their ranges and strings
    /// hold no NUL, sanitized ones no control characters.
    pub open spec fn valid(self) -> bool {
        &&& -1i32 <= self.spectator_id && self.spectator_id <= 63i32
    }

    fn from_values(v: &[Value]) -> (r: ClSetSpectatorMode)
        requires
            fits_msg(ClSetSpectatorMode::fields(), items_of(v@)),
        ensures
            r.items() == items_of(v@),
    {
        proof {
            crate::gamenet::msg::lemma_value_at(ClSetSpectatorMode::fields(), v@, 0);
            crate::gamenet::msg::lemma_value_at(ClSetSpectatorMode::fields(), v@, 1);
        }
        let e0 = int_at(v, 0);
        let spec_mode = match enums::Spec::from_i32(e0) {
            Ok(e) => e,
            Err(_) => {
                proof {
                    assert(false);
                }
                enums::Spec::Freeview
            },
        };
        proof {
            enums::lemma_spec_values(spec_mode, e0);
        }
        let r = ClSetSpectatorMode {
            spec_mode,
            spectator_id: int_at(v, 1),
        };
        proof {
            assert(r.items() =~= items_of(v@));
        }
        r
    }

    /// Reads the message from `p`; a message read in full warns about
    /// bytes left over, which it consumes.
    pub fn decode(warns: &mut Vec<Warning>, p: &mut Unpacker) -> (r: Result<ClSetSpectatorMode, Error>)
        ensures
            decoded_msg(
                ClSetSpectatorMode::fields(),
                old(p)@,
                final(p)@,
                old(warns)@,
                final(warns)@,
                match r {
                    Ok(x) => Ok(x.items()),
                    Err(e) => Err(e),
                },
            ),
    {
        let fields: [Field; 2] = [Field::Int(0i32, 3i32), Field::Int(-1i32, 63i32)];
        proof {
            assert(fields@ =~= ClSetSpectatorMode::fields());
        }
        let v = match read_fields(warns, p, &fields) {
            Ok(v) => v,
            Err(e) => return Err(e),
        };
        let result = ClSetSpectatorMode::from_values(v.as_slice());
        p.finish(warns);
        Ok(result)
    }

    /// Writes the message into `p`; fails if it does not fit.
    pub fn encode(&self, p: Packer) -> (r: Result<Vec<u8>, CapacityError>)
        requires
            self.valid(),
        ensures
            (r is Ok) <==> p@.len() + encoding(self.items()).len() <= p.capacity(),
            r matches Ok(b) ==> b@ == p@ + encoding(self.items()),
    {
        let mut values: Vec<Value> = Vec::new();
        values.push(Value::Int(self.spec_mode.to_i32()));
        values.push(Value::Int(self.spectator_id));
        proof {
            assert(items_of(values@) =~= self.items());
            lemma_cl_set_spectator_mode_writable(*self);
        }
        let mut p = p;
        match write_values(&mut p, values.as_slice()) {
            Ok(()) => Ok(p.written()),
            Err(e) => Err(e),
        }
    }
}

/// A valid `ClSetSpectatorMode` fits its fields and its strings hold no NUL.
proof fn lemma_cl_set_spectator_mode_writable(x: ClSetSpectatorMode)
    requires
        x.valid(),
    ensures
        fits_msg(ClSetSpectatorMode::fields(), x.items()),
        writable(x.items()),
{
    enums::lemma_spec_values(x.spec_mode, 0);
    assert forall|i: int| 0 <= i < 2 implies #[trigger] crate::gamenet::msg::accepts(ClSetSpectatorMode::fields()[i], x.items()[i]) && (x.items()[i] matches Item::Str(s) ==> no_nul(s)) by {
        if i == 0 {
            assert(x.items()[0] == Item::Int(x.spec_mode.value()));
        } else if i == 1 {
            assert(x.items()[1] == Item::Int(x.spectator_id));
        }
    }
}

/// Reading the encoding of a valid `ClSetSpectatorMode`, followed by anything, gives
/// back its fields without warnings, and no other `ClSetSpectatorMode` has the same
/// fields.
pub proof fn lemma_cl_set_spectator_mode_roundtrip(x: ClSetSpectatorMode, y: ClSetSpectatorMode, rest: Seq<u8>)
    requires
        x.valid(),
    ensures
        parse(ClSetSpectatorMode::fields(), encoding(x.items()) + rest) == (Ok::<Seq<Item>, Error>(x.items()), rest, Seq::<Warning>::empty()),
        y.items() == x.items() ==> y == x,
{
    lemma_cl_set_spectator_mode_writable(x);
    lemma_parse_encoding(ClSetSpectatorMode::fields(), x.items(), rest);
    if y.items() == x.items() {
        assert(y.items()[0] == x.items()[0]);
        enums::lemma_spec_values(x.spec_mode, 0);
        enums::lemma_spec_values(y.spec_mode, 0);
        assert(y.items()[1] == x.items()[1]);
    }
}

impl<'a> ClStartInfo<'a> {
    /// The fields of the message, in the order they are sent.
    pub open spec fn items(self) -> Seq<Item> {
        seq![Item::Str(self.name@), Item::Str(self.clan@), Item::Int(self.country), Item::Str(self.skin_part_names[0]@), Item::Str(self.skin_part_names[1]@), Item::Str(self.skin_part_names[2]@), Item::Str(self.skin_part_names[3]@), Item::Str(self.skin_part_names[4]@), Item::Str(self.skin_part_names[5]@), Item::Int(bool_int(self.use_custom_colors[0])), Item::Int(bool_int(self.use_custom_colors[1])), Item::Int(bool_int(self.use_custom_colors[2])), Item::Int(bool_int(self.use_custom_colors[3])), Item::Int(bool_int(self.use_custom_colors[4])), Item::Int(bool_int(self.use_custom_colors[5])), Item::Int(self.skin_part_colors[0]), Item::Int(self.skin_part_colors[1]), Item::Int(self.skin_part_colors[2]), Item::Int(self.skin_part_colors[3]), Item::Int(self.skin_part_colors[4]), Item::Int(self.skin_part_colors[5])]
    }

    /// The kinds of the fields.
    pub open spec fn fields() -> Seq<Field> {
        seq![Field::Sanitized, Field::Sanitized, Field::Int(i32::MIN, i32::MAX), Field::Sanitized, Field::Sanitized, Field::Sanitized, Field::Sanitized, Field::Sanitized, Field::Sanitized, Field::Int(0i32, 1i32), Field::Int(0i32, 1i32), Field::Int(0i32, 1i32), Field::Int(0i32, 1i32), Field::Int(0i32, 1i32), Field::Int(0i32, 1i32), Field::Int(i32::MIN, i32::MAX), Field::Int(i32::MIN, i32::MAX), Field::Int(i32::MIN, i32::MAX), Field::Int(i32::MIN, i32::MAX), Field::Int(i32::MIN, i32::MAX), Field::Int(i32::MIN, i32::MAX)]
    }

    /// The message can be sent: integers lie in their ranges and strings
    /// hold no NUL, sanitized ones no control characters.
    pub open spec fn valid(self) -> bool {
        &&& no_control(self.name@)
        &&& no_control(self.clan@)
        &&& no_control(self.skin_part_names[0]@)
        &&& no_control(self.skin_part_names[1]@)
        &&& no_control(self.skin_part_names[2]@)
        &&& no_control(self.skin_part_names[3]@)
        &&& no_control(self.skin_part_names[4]@)
        &&& no_control(self.skin_part_names[5]@)
    }

    #[verifier::spinoff_prover]
    #[verifier::rlimit(100)]
    fn from_values(v: &[Value<'a>]) -> (r: ClStartInfo<'a>)
        requires
            fits_msg(ClStartInfo::fields(), items_of(v@)),
        ensures
            r.items() == items_of(v@),
    {
        proof {
            crate::gamenet::msg::lemma_value_at(ClStartInfo::fields(), v@, 0);
            crate::gamenet::msg::lemma_value_at(ClStartInfo::fields(), v@, 1);
            crate::gamenet::msg::lemma_value_at(ClStartInfo::fields(), v@, 2);
            crate::gamenet::msg::lemma_value_at(ClStartInfo::fields(), v@, 3);
            crate::gamenet::msg::lemma_value_at(ClStartInfo::fields(), v@, 4);
            crate::gamenet::msg::lemma_value_at(ClStartInfo::fields(), v@, 5);
            crate::gamenet::msg::lemma_value_at(ClStartInfo::fields(), v@, 6);
            crate::gamenet::msg::lemma_value_at(ClStartInfo::fields(), v@, 7);
            crate::gamenet::msg::lemma_value_at(ClStartInfo::fields(), v@, 8);
            crate::gamenet::msg::lemma_value_at(ClStartInfo::fields(), v@, 9);
            crate::gamenet::msg::lemma_value_at(ClStartInfo::fields(), v@, 10);
            crate::gamenet::msg::lemma_value_at(ClStartInfo::fields(), v@, 11);
            crate::gamenet::msg::lemma_value_at(ClStartInfo::fields(), v@, 12);
            crate::gamenet::msg::lemma_value_at(ClStartInfo::fields(), v@, 13);
            crate::gamenet::msg::lemma_value_at(ClStartInfo::fields(), v@, 14);
            crate::gamenet::msg::lemma_value_at(ClStartInfo::fields(), v@, 15);
            crate::gamenet::msg::lemma_value_at(ClStartInfo::fields(), v@, 16);
            crate::gamenet::msg::lemma_value_at(ClStartInfo::fields(), v@, 17);
            crate::gamenet::msg::lemma_value_at(ClStartInfo::fields(), v@, 18);
            crate::gamenet::msg::lemma_value_at(ClStartInfo::fields(), v@, 19);
            crate::gamenet::msg::lemma_value_at(ClStartInfo::fields(), v@, 20);
        }
        let r = ClStartInfo {
            name: str_at(v, 0),
            clan: str_at(v, 1),
            country: int_at(v, 2),
            skin_part_names: [str_at(v, 3), str_at(v, 4), str_at(v, 5), str_at(v, 6), str_at(v, 7), str_at(v, 8)],
            use_custom_colors: [int_at(v, 9) != 0, int_at(v, 10) != 0, int_at(v, 11) != 0, int_at(v, 12) != 0, int_at(v, 13) != 0, int_at(v, 14) != 0],
            skin_part_colors: [int_at(v, 15), int_at(v, 16), int_at(v, 17), int_at(v, 18), int_at(v, 19), int_at(v, 20)],
        };
        proof {
            assert(r.items() =~= items_of(v@));
        }
        r
    }

    /// Reads the message from `p`; a message read in full warns about
    /// bytes left over, which it consumes.
    pub fn decode(warns: &mut Vec<Warning>, p: &mut Unpacker<'a>) -> (r: Result<ClStartInfo<'a>, Error>)
        ensures
            decoded_msg(
                ClStartInfo::fields(),
                old(p)@,
                final(p)@,
                old(warns)@,
                final(warns)@,
                match r {
                    Ok(x) => Ok(x.items()),
                    Err(e) => Err(e),
                },
            ),
    {
        let fields: [Field; 21] = [Field::Sanitized, Field::Sanitized, Field::Int(i32::MIN, i32::MAX), Field::Sanitized, Field::Sanitized, Field::Sanitized, Field::Sanitized, Field::Sanitized, Field::Sanitized, Field::Int(0i32, 1i32), Field::Int(0i32, 1i32), Field::Int(0i32, 1i32), Field::Int(0i32, 1i32), Field::Int(0i32, 1i32), Field::Int(0i32, 1i32), Field::Int(i32::MIN, i32::MAX), Field::Int(i32::MIN, i32::MAX), Field::Int(i32::MIN, i32::MAX), Field::Int(i32::MIN, i32::MAX), Field::Int(i32::MIN, i32::MAX), Field::Int(i32::MIN, i32::MAX)];
        proof {
            assert(fields@ =~= ClStartInfo::fields());
        }
        let v = match read_fields(warns, p, &fields) {
            Ok(v) => v,
            Err(e) => return Err(e),
        };
        let result = ClStartInfo::from_values(v.as_slice());
        p.finish(warns);
        Ok(result)
    }

    /// Writes the message into `p`; fails if it does not fit.
    #[verifier::spinoff_prover]
    #[verifier::rlimit(100)]
    pub fn encode(&self, p: Packer) -> (r: Result<Vec<u8>, CapacityError>)
        requires
            self.valid(),
        ensures
            (r is Ok) <==> p@.len() + encoding(self.items()).len() <= p.capacity(),
            r matches Ok(b) ==> b@ == p@ + encoding(self.items()),
    {
        let mut values: Vec<Value> = Vec::new();
        values.push(Value::Str(self.name));
        values.push(Value::Str(self.clan));
        values.push(Value::Int(self.country));
        values.push(Value::Str(self.skin_part_names[0]));
        values.push(Value::Str(self.skin_part_names[1]));
        values.push(Value::Str(self.skin_part_names[2]));
        values.push(Value::Str(self.skin_part_names[3]));
        values.push(Value::Str(self.skin_part_names[4]));
        values.push(Value::Str(self.skin_part_names[5]));
        values.push(Value::Int(if self.use_custom_colors[0] { 1 } else { 0 }));
        values.push(Value::Int(if self.use_custom_colors[1] { 1 } else { 0 }));
        values.push(Value::Int(if self.use_custom_colors[2] { 1 } else { 0 }));
        values.push(Value::Int(if self.use_custom_colors[3] { 1 } else { 0 }));
        values.push(Value::Int(if self.use_custom_colors[4] { 1 } else { 0 }));
        values.push(Value::Int(if self.use_custom_colors[5] { 1 } else { 0 }));
        values.push(Value::Int(self.skin_part_colors[0]));
        values.push(Value::Int(self.skin_part_colors[1]));
        values.push(Value::Int(self.skin_part_colors[2]));
        values.push(Value::Int(self.skin_part_colors[3]));
        values.push(Value::Int(self.skin_part_colors[4]));
        values.push(Value::Int(self.skin_part_colors[5]));
        proof {
            assert(items_of(values@) =~= self.items());
            lemma_cl_start_info_writable(*self);
        }
        let mut p = p;
        match write_values(&mut p, values.as_slice()) {
            Ok(()) => Ok(p.written()),
            Err(e) => Err(e),
        }
    }
}

/// A valid `ClStartInfo` fits its fields and its strings hold no NUL.
#[verifier::spinoff_prover]
#[verifier::rlimit(100)]
proof fn lemma_cl_start_info_writable<'a>(x: ClStartInfo<'a>)
    requires
        x.valid(),
    ensures
        fits_msg(ClStartInfo::fields(), x.items()),
        writable(x.items()),
{
    assert forall|i: int| 0 <= i < 21 implies #[trigger] crate::gamenet::msg::accepts(ClStartInfo::fields()[i], x.items()[i]) && (x.items()[i] matches Item::Str(s) ==> no_nul(s)) by {
        if i == 0 {
            assert(x.items()[0] == Item::Str(x.name@));
            crate::gamenet::msg::lemma_no_control_no_nul(x.name@);
        } else if i == 1 {
            assert(x.items()[1] == Item::Str(x.clan@));
            crate::gamenet::msg::lemma_no_control_no_nul(x.clan@);
        } else if i == 2 {
            assert(x.items()[2] == Item::Int(x.country));
        } else if i == 3 {
            assert(x.items()[3] == Item::Str(x.skin_part_names[0]@));
            crate::gamenet::msg::lemma_no_control_no_nul(x.skin_part_names[0]@);
        } else if i == 4 {
            assert(x.items()[4] == Item::Str(x.skin_part_names[1]@));
            crate::gamenet::msg::lemma_no_control_no_nul(x.skin_part_names[1]@);
        } else if i == 5 {
            assert(x.items()[5] == Item::Str(x.skin_part_names[2]@));
            crate::gamenet::msg::lemma_no_control_no_nul(x.skin_part_names[2]@);
        } else if i == 6 {
            assert(x.items()[6] == Item::Str(x.skin_part_names[3]@));
            crate::gamenet::msg::lemma_no_control_no_nul(x.skin_part_names[3]@);
        } else if i == 7 {
            assert(x.items()[7] == Item::Str(x.skin_part_names[4]@));
            crate::gamenet::msg::lemma_no_control_no_nul(x.skin_part_names[4]@);
        } else if i == 8 {
            assert(x.items()[8] == Item::Str(x.skin_part_names[5]@));
            crate::gamenet::msg::lemma_no_control_no_nul(x.skin_part_names[5]@);
        } else if i == 9 {
            assert(x.items()[9] == Item::Int(bool_int(x.use_custom_colors[0])));
        } else if i == 10 {
            assert(x.items()[10] == Item::Int(bool_int(x.use_custom_colors[1])));
        } else if i == 11 {
            assert(x.items()[11] == Item::Int(bool_int(x.use_custom_colors[2])));
        } else if i == 12 {
            assert(x.items()[12] == Item::Int(bool_int(x.use_custom_colors[3])));
        } else if i == 13 {
            assert(x.items()[13] == Item::Int(bool_int(x.use_custom_colors[4])));
        } else if i == 14 {
            assert(x.items()[14] == Item::Int(bool_int(x.use_custom_colors[5])));
        } else if i == 15 {
            assert(x.items()[15] == Item::Int(x.skin_part_colors[0]));
        } else if i == 16 {
            assert(x.items()[16] == Item::Int(x.skin_part_colors[1]));
        } else if i == 17 {
            assert(x.items()[17] == Item::Int(x.skin_part_colors[2]));
        } else if i == 18 {
            assert(x.items()[18] == Item::Int(x.skin_part_colors[3]));
        } else if i == 19 {
            assert(x.items()[19] == Item::Int(x.skin_part_colors[4]));
        } else if i == 20 {
            assert(x.items()[20] == Item::Int(x.skin_part_colors[5]));
        }
    }
}

/// Reading the encoding of a valid `ClStartInfo`, followed by anything, gives
/// back its fields without warnings, and no other `ClStartInfo` has the same
/// fields.
#[verifier::spinoff_prover]
#[verifier::rlimit(100)]
pub proof fn lemma_cl_start_info_roundtrip<'a>(x: ClStartInfo<'a>, y: ClStartInfo<'a>, rest: Seq<u8>)
    requires
        x.valid(),
    ensures
        parse(ClStartInfo::fields(), encoding(x.items()) + rest) == (Ok::<Seq<Item>, Error>(x.items()), rest, Seq::<Warning>::empty()),
        y.items() == x.items() ==> y == x,
{
    lemma_cl_start_info_writable(x);
    lemma_parse_encoding(ClStartInfo::fields(), x.items(), rest);
    if y.items() == x.items() {
        assert(y.items()[0] == x.items()[0]);
        assert(y.name =~= x.name);
        assert(y.items()[1] == x.items()[1]);
        assert(y.clan =~= x.clan);
        assert(y.items()[2] == x.items()[2]);
        assert(y.items()[3] == x.items()[3]);
        assert(y.skin_part_names[0] =~= x.skin_part_names[0]);
        assert(y.items()[4] == x.items()[4]);
        assert(y.skin_part_names[1] =~= x.skin_part_names[1]);
        assert(y.items()[5] == x.items()[5]);
        assert(y.skin_part_names[2] =~= x.skin_part_names[2]);
        assert(y.items()[6] == x.items()[6]);
        assert(y.skin_part_names[3] =~= x.skin_part_names[3]);
        assert(y.items()[7] == x.items()[7]);
        assert(y.skin_part_names[4] =~= x.skin_part_names[4]);
        assert(y.items()[8] == x.items()[8]);
        assert(y.skin_part_names[5] =~= x.skin_part_names[5]);
        assert(y.skin_part_names =~= x.skin_part_names);
        assert(y.items()[9] == x.items()[9]);
        assert(y.items()[10] == x.items()[10]);
        assert(y.items()[11] == x.items()[11]);
        assert(y.items()[12] == x.items()[12]);
        assert(y.items()[13] == x.items()[13]);
        assert(y.items()[14] == x.items()[14]);
        assert(y.use_custom_colors =~= x.use_custom_colors);
        assert(y.items()[15] == x.items()[15]);
        assert(y.items()[16] == x.items()[16]);
        assert(y.items()[17] == x.items()[17]);
        assert(y.items()[18] == x.items()[18]);
        assert(y.items()[19] == x.items()[19]);
        assert(y.items()[20] == x.items()[20]);
        assert(y.skin_part_colors =~= x.skin_part_colors);
    }
}

impl ClKill {
    /// The fields of the message, in the order they are sent.
    pub open spec fn items(self) -> Seq<Item> {
        Seq::empty()
    }

    /// The kinds of the fields.
    pub open spec fn fields() -> Seq<Field> {
        Seq::empty()
    }

    /// The message can be sent: integers lie in their ranges and strings
    /// hold no NUL, sanitized ones no control characters.
    pub open spec fn valid(self) -> bool {
        true
    }

    fn from_values(v: &[Value]) -> (r: ClKill)
        requires
            fits_msg(ClKill::fields(), items_of(v@)),
        ensures
            r.items() == items_of(v@),
    {
        let r = ClKill;
        proof {
            assert(r.items() =~= items_of(v@));
        }
        r
    }

    /// Reads the message from `p`; a message read in full warns about
    /// bytes left over, which it consumes.
    pub fn decode(warns: &mut Vec<Warning>, p: &mut Unpacker) -> (r: Result<ClKill, Error>)
        ensures
            decoded_msg(
                ClKill::fields(),
                old(p)@,
                final(p)@,
                old(warns)@,
                final(warns)@,
                match r {
                    Ok(x) => Ok(x.items()),
                    Err(e) => Err(e),
                },
            ),
    {
        let fields: [Field; 0] = [];
        proof {
            assert(fields@ =~= ClKill::fields());
        }
        let v = match read_fields(warns, p, &fields) {
            Ok(v) => v,
            Err(e) => return Err(e),
        };
        let result = ClKill::from_values(v.as_slice());
        p.finish(warns);
        Ok(result)
    }

    /// Writes the message into `p`; fails if it does not fit.
    pub fn encode(&self, p: Packer) -> (r: Result<Vec<u8>, CapacityError>)
        ensures
            (r is Ok) <==> p@.len() + encoding(self.items()).len() <= p.capacity(),
            r matches Ok(b) ==> b@ == p@ + encoding(self.items()),
    {
        let mut values: Vec<Value> = Vec::new();
        proof {
            assert(items_of(values@) =~= self.items());
            lemma_cl_kill_writable(*self);
        }
        let mut p = p;
        match write_values(&mut p, values.as_slice()) {
            Ok(()) => Ok(p.written()),
            Err(e) => Err(e),
        }
    }
}

/// A valid `ClKill` fits its fields and its strings hold no NUL.
proof fn lemma_cl_kill_writable(x: ClKill)
    requires
        x.valid(),
    ensures
        fits_msg(ClKill::fields(), x.items()),
        writable(x.items()),
{
}

/// Reading the encoding of a valid `ClKill`, followed by anything, gives
/// back its fields without warnings, and no other `ClKill` has the same
/// fields.
pub proof fn lemma_cl_kill_roundtrip(x: ClKill, y: ClKill, rest: Seq<u8>)
    requires
        x.valid(),
    ensures
        parse(ClKill::fields(), encoding(x.items()) + rest) == (Ok::<Seq<Item>, Error>(x.items()), rest, Seq::<Warning>::empty()),
        y.items() == x.items() ==> y == x,
{
    lemma_cl_kill_writable(x);
    lemma_parse_encoding(ClKill::fields(), x.items(), rest);
    if y.items() == x.items() {
    }
}

impl ClReadyChange {
    /// The fields of the message, in the order they are sent.
    pub open spec fn items(self) -> Seq<Item> {
        Seq::empty()
    }

    /// The kinds of the fields.
    pub open spec fn fields() -> Seq<Field> {
        Seq::empty()
    }

    /// The message can be sent: integers lie in their ranges and strings
    /// hold no NUL, sanitized ones no control characters.
    pub open spec fn valid(self) -> bool {
        true
    }

    fn from_values(v: &[Value]) -> (r: ClReadyChange)
        requires
            fits_msg(ClReadyChange::fields(), items_of(v@)),
        ensures
            r.items() == items_of(v@),
    {
        let r = ClReadyChange;
        proof {
            assert(r.items() =~= items_of(v@));
        }
        r
    }

    /// Reads the message from `p`; a message read in full warns about
    /// bytes left over, which it consumes.
    pub fn decode(warns: &mut Vec<Warning>, p: &mut Unpacker) -> (r: Result<ClReadyChange, Error>)
        ensures
            decoded_msg(
                ClReadyChange::fields(),
                old(p)@,
                final(p)@,
                old(warns)@,
                final(warns)@,
                match r {
                    Ok(x) => Ok(x.items()),
                    Err(e) => Err(e),
                },
            ),
    {
        let fields: [Field; 0] = [];
        proof {
            assert(fields@ =~= ClReadyChange::fields());
        }
        let v = match read_fields(warns, p, &fields) {
            Ok(v) => v,
            Err(e) => return Err(e),
        };
        let result = ClReadyChange::from_values(v.as_slice());
        p.finish(warns);
        Ok(result)
    }

    /// Writes the message into `p`; fails if it does not fit.
    pub fn encode(&self, p: Packer) -> (r: Result<Vec<u8>, CapacityError>)
        ensures
            (r is Ok) <==> p@.len() + encoding(self.items()).len() <= p.capacity(),
            r matches Ok(b) ==> b@ == p@ + encoding(self.items()),
    {
        let mut values: Vec<Value> = Vec::new();
        proof {
            assert(items_of(values@) =~= self.items());
            lemma_cl_ready_change_writable(*self);
        }
        let mut p = p;
        match write_values(&mut p, values.as_slice()) {
            Ok(()) => Ok(p.written()),
            Err(e) => Err(e),
        }
    }
}

/// A valid `ClReadyChange` fits its fields and its strings hold no NUL.
proof fn lemma_cl_ready_change_writable(x: ClReadyChange)
    requires
        x.valid(),
    ensures
        fits_msg(ClReadyChange::fields(), x.items()),
        writable(x.items()),
{
}

/// Reading the encoding of a valid `ClReadyChange`, followed by anything, gives
/// back its fields without warnings, and no other `ClReadyChange` has the same
/// fields.
pub proof fn lemma_cl_ready_change_roundtrip(x: ClReadyChange, y: ClReadyChange, rest: Seq<u8>)
    requires
        x.valid(),
    ensures
        parse(ClReadyChange::fields(), encoding(x.items()) + rest) == (Ok::<Seq<Item>, Error>(x.items()), rest, Seq::<Warning>::empty()),
        y.items() == x.items() ==> y == x,
{
    lemma_cl_ready_change_writable(x);
    lemma_parse_encoding(ClReadyChange::fields(), x.items(), rest);
    if y.items() == x.items() {
    }
}

impl ClEmoticon {
    /// The fields of the message, in the order they are sent.
    pub open spec fn items(self) -> Seq<Item> {
        seq![Item::Int(self.emoticon.value())]
    }

    /// The kinds of the fields.
    pub open spec fn fields() -> Seq<Field> {
        seq![Field::Int(0i32, 15i32)]
    }

    /// The message can be sent: integers lie in their ranges and strings
    /// hold no NUL, sanitized ones no control characters.
    pub open spec fn valid(self) -> bool {
        true
    }

    fn from_values(v: &[Value]) -> (r: ClEmoticon)
        requires
            fits_msg(ClEmoticon::fields(), items_of(v@)),
        ensures
            r.items() == items_of(v@),
    {
        proof {
            crate::gamenet::msg::lemma_value_at(ClEmoticon::fields(), v@, 0);
        }
        let e0 = int_at(v, 0);
        let emoticon = match enums::Emoticon::from_i32(e0) {
            Ok(e) => e,
            Err(_) => {
                proof {
                    assert(false);
                }
                enums::Emoticon::Oop
            },
        };
        proof {
            enums::lemma_emoticon_values(emoticon, e0);
        }
        let r = ClEmoticon {
            emoticon,
        };
        proof {
            assert(r.items() =~= items_of(v@));
        }
        r
    }

    /// Reads the message from `p`; a message read in full warns about
    /// bytes left over, which it consumes.
    pub fn decode(warns: &mut Vec<Warning>, p: &mut Unpacker) -> (r: Result<ClEmoticon, Error>)
        ensures
            decoded_msg(
                ClEmoticon::fields(),
                old(p)@,
                final(p)@,
                old(warns)@,
                final(warns)@,
                match r {
                    Ok(x) => Ok(x.items()),
                    Err(e) => Err(e),
                },
            ),
    {
        let fields: [Field; 1] = [Field::Int(0i32, 15i32)];
        proof {
            assert(fields@ =~= ClEmoticon::fields());
        }
        let v = match read_fields(warns, p, &fields) {
            Ok(v) => v,
            Err(e) => return Err(e),
        };
        let result = ClEmoticon::from_values(v.as_slice());
        p.finish(warns);
        Ok(result)
    }

    /// Writes the message into `p`; fails if it does not fit.
    pub fn encode(&self, p: Packer) -> (r: Result<Vec<u8>, CapacityError>)
        ensures
            (r is Ok) <==> p@.len() + encoding(self.items()).len() <= p.capacity(),
            r matches Ok(b) ==> b@ == p@ + encoding(self.items()),
    {
        let mut values: Vec<Value> = Vec::new();
        values.push(Value::Int(self.emoticon.to_i32()));
        proof {
            assert(items_of(values@) =~= self.items());
            lemma_cl_emoticon_writable(*self);
        }
        let mut p = p;
        match write_values(&mut p, values.as_slice()) {
            Ok(()) => Ok(p.written()),
            Err(e) => Err(e),
        }
    }
}

/// A valid `ClEmoticon` fits its fields and its strings hold no NUL.
proof fn lemma_cl_emoticon_writable(x: ClEmoticon)
    requires
        x.valid(),
    ensures
        fits_msg(ClEmoticon::fields(), x.items()),
        writable(x.items()),
{
    enums::lemma_emoticon_values(x.emoticon, 0);
    assert forall|i: int| 0 <= i < 1 implies #[trigger] crate::gamenet::msg::accepts(ClEmoticon::fields()[i], x.items()[i]) && (x.items()[i] matches Item::Str(s) ==> no_nul(s)) by {
        if i == 0 {
            assert(x.items()[0] == Item::Int(x.emoticon.value()));
        }
    }
}

/// Reading the encoding of a valid `ClEmoticon`, followed by anything, gives
/// back its fields without warnings, and no other `ClEmoticon` has the same
/// fields.
pub proof fn lemma_cl_emoticon_roundtrip(x: ClEmoticon, y: ClEmoticon, rest: Seq<u8>)
    requires
        x.valid(),
    ensures
        parse(ClEmoticon::fields(), encoding(x.items()) + rest) == (Ok::<Seq<Item>, Error>(x.items()), rest, Seq::<Warning>::empty()),
        y.items() == x.items() ==> y == x,
{
    lemma_cl_emoticon_writable(x);
    lemma_parse_encoding(ClEmoticon::fields(), x.items(), rest);
    if y.items() == x.items() {
        assert(y.items()[0] == x.items()[0]);
        enums::lemma_emoticon_values(x.emoticon, 0);
        enums::lemma_emoticon_values(y.emoticon, 0);
    }
}

impl ClVote {
    /// The fields of the message, in the order they are sent.
    pub open spec fn items(self) -> Seq<Item> {
        seq![Item::Int(self.vote)]
    }

    /// The kinds of the fields.
    pub open spec fn fields() -> Seq<Field> {
        seq![Field::Int(-1i32, 1i32)]
    }

    /// The message can be sent: integers lie in their ranges and strings
    /// hold no NUL, sanitized ones no control characters.
    pub open spec fn valid(self) -> bool {
        &&& -1i32 <= self.vote && self.vote <= 1i32
    }

    fn from_values(v: &[Value]) -> (r: ClVote)
        requires
            fits_msg(ClVote::fields(), items_of(v@)),
        ensures
            r.items() == items_of(v@),
    {
        proof {
            crate::gamenet::msg::lemma_value_at(ClVote::fields(), v@, 0);
        }
        let r = ClVote {
            vote: int_at(v, 0),
        };
        proof {
            assert(r.items() =~= items_of(v@));
        }
        r
    }

    /// Reads the message from `p`; a message read in full warns about
    /// bytes left over, which it consumes.
    pub fn decode(warns: &mut Vec<Warning>, p: &mut Unpacker) -> (r: Result<ClVote, Error>)
        ensures
            decoded_msg(
                ClVote::fields(),
                old(p)@,
                final(p)@,
                old(warns)@,
                final(warns)@,
                match r {
                    Ok(x) => Ok(x.items()),
                    Err(e) => Err(e),
                },
            ),
    {
        let fields: [Field; 1] = [Field::Int(-1i32, 1i32)];
        proof {
            assert(fields@ =~= ClVote::fields());
        }
        let v = match read_fields(warns, p, &fields) {
            Ok(v) => v,
            Err(e) => return Err(e),
        };
        let result = ClVote::from_values(v.as_slice());
        p.finish(warns);
        Ok(result)
    }

    /// Writes the message into `p`; fails if it does not fit.
    pub fn encode(&self, p: Packer) -> (r: Result<Vec<u8>, CapacityError>)
        requires
            self.valid(),
        ensures
            (r is Ok) <==> p@.len() + encoding(self.items()).len() <= p.capacity(),
            r matches Ok(b) ==> b@ == p@ + encoding(self.items()),
    {
        let mut values: Vec<Value> = Vec::new();
        values.push(Value::Int(self.vote));
        proof {
            assert(items_of(values@) =~= self.items());
            lemma_cl_vote_writable(*self);
        }
        let mut p = p;
        match write_values(&mut p, values.as_slice()) {
            Ok(()) => Ok(p.written()),
            Err(e) => Err(e),
        }
    }
}

/// A valid `ClVote` fits its fields and its strings hold no NUL.
proof fn lemma_cl_vote_writable(x: ClVote)
    requires
        x.valid(),
    ensures
        fits_msg(ClVote::fields(), x.items()),
        writable(x.items()),
{
    assert forall|i: int| 0 <= i < 1 implies #[trigger] crate::gamenet::msg::accepts(ClVote::fields()[i], x.items()[i]) && (x.items()[i] matches Item::Str(s) ==> no_nul(s)) by {
        if i == 0 {
            assert(x.items()[0] == Item::Int(x.vote));
        }
    }
}

/// Reading the encoding of a valid `ClVote`, followed by anything, gives
/// back its fields without warnings, and no other `ClVote` has the same
/// fields.
pub proof fn lemma_cl_vote_roundtrip(x: ClVote, y: ClVote, rest: Seq<u8>)
    requires
        x.valid(),
    ensures
        parse(ClVote::fields(), encoding(x.items()) + rest) == (Ok::<Seq<Item>, Error>(x.items()), rest, Seq::<Warning>::empty()),
        y.items() == x.items() ==> y == x,
{
    lemma_cl_vote_writable(x);
    lemma_parse_encoding(ClVote::fields(), x.items(), rest);
    if y.items() == x.items() {
        assert(y.items()[0] == x.items()[0]);
    }
}

impl<'a> ClCallVote<'a> {
    /// The fields of the message, in the order they are sent.
    pub open spec fn items(self) -> Seq<Item> {
        seq![Item::Str(self.type_@), Item::Str(self.value@), Item::Str(self.reason@), Item::Int(bool_int(self.force))]
    }

    /// The kinds of the fields.
    pub open spec fn fields() -> Seq<Field> {
        seq![Field::Sanitized, Field::Sanitized, Field::Sanitized, Field::Int(0i32, 1i32)]
    }

    /// The message can be sent: integers lie in their ranges and strings
    /// hold no NUL, sanitized ones no control characters.
    pub open spec fn valid(self) -> bool {
        &&& no_control(self.type_@)
        &&& no_control(self.value@)
        &&& no_control(self.reason@)
    }

    fn from_values(v: &[Value<'a>]) -> (r: ClCallVote<'a>)
        requires
            fits_msg(ClCallVote::fields(), items_of(v@)),
        ensures
            r.items() == items_of(v@),
    {
        proof {
            crate::gamenet::msg::lemma_value_at(ClCallVote::fields(), v@, 0);
            crate::gamenet::msg::lemma_value_at(ClCallVote::fields(), v@, 1);
            crate::gamenet::msg::lemma_value_at(ClCallVote::fields(), v@, 2);
            crate::gamenet::msg::lemma_value_at(ClCallVote::fields(), v@, 3);
        }
        let r = ClCallVote {
            type_: str_at(v, 0),
            value: str_at(v, 1),
            reason: str_at(v, 2),
            force: int_at(v, 3) != 0,
        };
        proof {
            assert(r.items() =~= items_of(v@));
        }
        r
    }

    /// Reads the message from `p`; a message read in full warns about
    /// bytes left over, which it consumes.
    pub fn decode(warns: &mut Vec<Warning>, p: &mut Unpacker<'a>) -> (r: Result<ClCallVote<'a>, Error>)
        ensures
            decoded_msg(
                ClCallVote::fields(),
                old(p)@,
                final(p)@,
                old(warns)@,
                final(warns)@,
                match r {
                    Ok(x) => Ok(x.items()),
                    Err(e) => Err(e),
                },
            ),
    {
        let fields: [Field; 4] = [Field::Sanitized, Field::Sanitized, Field::Sanitized, Field::Int(0i32, 1i32)];
        proof {
            assert(fields@ =~= ClCallVote::fields());
        }
        let v = match read_fields(warns, p, &fields) {
            Ok(v) => v,
            Err(e) => return Err(e),
        };
        let result = ClCallVote::from_values(v.as_slice());
        p.finish(warns);
        Ok(result)
    }

    /// Writes the message into `p`; fails if it does not fit.
    pub fn encode(&self, p: Packer) -> (r: Result<Vec<u8>, CapacityError>)
        requires
            self.valid(),
        ensures
            (r is Ok) <==> p@.len() + encoding(self.items()).len() <= p.capacity(),
            r matches Ok(b) ==> b@ == p@ + encoding(self.items()),
    {
        let mut values: Vec<Value> = Vec::new();
        values.push(Value::Str(self.type_));
        values.push(Value::Str(self.value));
        values.push(Value::Str(self.reason));
        values.push(Value::Int(if self.force { 1 } else { 0 }));
        proof {
            assert(items_of(values@) =~= self.items());
            lemma_cl_call_vote_writable(*self);
        }
        let mut p = p;
        match write_values(&mut p, values.as_slice()) {
            Ok(()) => Ok(p.written()),
            Err(e) => Err(e),
        }
    }
}

/// A valid `ClCallVote` fits its fields and its strings hold no NUL.
proof fn lemma_cl_call_vote_writable<'a>(x: ClCallVote<'a>)
    requires
        x.valid(),
    ensures
        fits_msg(ClCallVote::fields(), x.items()),
        writable(x.items()),
{
    assert forall|i: int| 0 <= i < 4 implies #[trigger] crate::gamenet::msg::accepts(ClCallVote::fields()[i], x.items()[i]) && (x.items()[i] matches Item::Str(s) ==> no_nul(s)) by {
        if i == 0 {
            assert(x.items()[0] == Item::Str(x.type_@));
            crate::gamenet::msg::lemma_no_control_no_nul(x.type_@);
        } else if i == 1 {
            assert(x.items()[1] == Item::Str(x.value@));
            crate::gamenet::msg::lemma_no_control_no_nul(x.value@);
        } else if i == 2 {
            assert(x.items()[2] == Item::Str(x.reason@));
            crate::gamenet::msg::lemma_no_control_no_nul(x.reason@);
        } else if i == 3 {
            assert(x.items()[3] == Item::Int(bool_int(x.force)));
        }
    }
}

/// Reading the encoding of a valid `ClCallVote`, followed by anything, gives
/// back its fields without warnings, and no other `ClCallVote` has the same
/// fields.
pub proof fn lemma_cl_call_vote_roundtrip<'a>(x: ClCallVote<'a>, y: ClCallVote<'a>, rest: Seq<u8>)
    requires
        x.valid(),
    ensures
        parse(ClCallVote::fields(), encoding(x.items()) + rest) == (Ok::<Seq<Item>, Error>(x.items()), rest, Seq::<Warning>::empty()),
        y.items() == x.items() ==> y == x,
{
    lemma_cl_call_vote_writable(x);
    lemma_parse_encoding(ClCallVote::fields(), x.items(), rest);
    if y.items() == x.items() {
        assert(y.items()[0] == x.items()[0]);
        assert(y.type_ =~= x.type_);
        assert(y.items()[1] == x.items()[1]);
        assert(y.value =~= x.value);
        assert(y.items()[2] == x.items()[2]);
        assert(y.reason =~= x.reason);
        assert(y.items()[3] == x.items()[3]);
    }
}

impl<'a> SvSkinChange<'a> {
    /// The fields of the message, in the order they are sent.
    pub open spec fn items(self) -> Seq<Item> {
        seq![Item::Int(self.client_id), Item::Str(self.skin_part_names[0]@), Item::Str(self.skin_part_names[1]@), Item::Str(self.skin_part_names[2]@), Item::Str(self.skin_part_names[3]@), Item::Str(self.skin_part_names[4]@), Item::Str(self.skin_part_names[5]@), Item::Int(bool_int(self.use_custom_colors[0])), Item::Int(bool_int(self.use_custom_colors[1])), Item::Int(bool_int(self.use_custom_colors[2])), Item::Int(bool_int(self.use_custom_colors[3])), Item::Int(bool_int(self.use_custom_colors[4])), Item::Int(bool_int(self.use_custom_colors[5])), Item::Int(self.skin_part_colors[0]), Item::Int(self.skin_part_colors[1]), Item::Int(self.skin_part_colors[2]), Item::Int(self.skin_part_colors[3]), Item::Int(self.skin_part_colors[4]), Item::Int(self.skin_part_colors[5])]
    }

    /// The kinds of the fields.
    pub open spec fn fields() -> Seq<Field> {
        seq![Field::Int(0i32, 63i32), Field::Sanitized, Field::Sanitized, Field::Sanitized, Field::Sanitized, Field::Sanitized, Field::Sanitized, Field::Int(0i32, 1i32), Field::Int(0i32, 1i32), Field::Int(0i32, 1i32), Field::Int(0i32, 1i32), Field::Int(0i32, 1i32), Field::Int(0i32, 1i32), Field::Int(i32::MIN, i32::MAX), Field::Int(i32::MIN, i32::MAX), Field::Int(i32::MIN, i32::MAX), Field::Int(i32::MIN, i32::MAX), Field::Int(i32::MIN, i32::MAX), Field::Int(i32::MIN, i32::MAX)]
    }

    /// The message can be sent: integers lie in their ranges and strings
    /// hold no NUL, sanitized ones no control characters.
    pub open spec fn valid(self) -> bool {
        &&& 0i32 <= self.client_id && self.client_id <= 63i32
        &&& no_control(self.skin_part_names[0]@)
        &&& no_control(self.skin_part_names[1]@)
        &&& no_control(self.skin_part_names[2]@)
        &&& no_control(self.skin_part_names[3]@)
        &&& no_control(self.skin_part_names[4]@)
        &&& no_control(self.skin_part_names[5]@)
    }

    #[verifier::spinoff_prover]
    #[verifier::rlimit(100)]
    fn from_values(v: &[Value<'a>]) -> (r: SvSkinChange<'a>)
        requires
            fits_msg(SvSkinChange::fields(), items_of(v@)),
        ensures
            r.items() == items_of(v@),
    {
        proof {
            crate::gamenet::msg::lemma_value_at(SvSkinChange::fields(), v@, 0);
            crate::gamenet::msg::lemma_value_at(SvSkinChange::fields(), v@, 1);
            crate::gamenet::msg::lemma_value_at(SvSkinChange::fields(), v@, 2);
            crate::gamenet::msg::lemma_value_at(SvSkinChange::fields(), v@, 3);
            crate::gamenet::msg::lemma_value_at(SvSkinChange::fields(), v@, 4);
            crate::gamenet::msg::lemma_value_at(SvSkinChange::fields(), v@, 5);
            crate::gamenet::msg::lemma_value_at(SvSkinChange::fields(), v@, 6);
            crate::gamenet::msg::lemma_value_at(SvSkinChange::fields(), v@, 7);
            crate::gamenet::msg::lemma_value_at(SvSkinChange::fields(), v@, 8);
            crate::gamenet::msg::lemma_value_at(SvSkinChange::fields(), v@, 9);
            crate::gamenet::msg::lemma_value_at(SvSkinChange::fields(), v@, 10);
            crate::gamenet::msg::lemma_value_at(SvSkinChange::fields(), v@, 11);
            crate::gamenet::msg::lemma_value_at(SvSkinChange::fields(), v@, 12);
            crate::gamenet::msg::lemma_value_at(SvSkinChange::fields(), v@, 13);
            crate::gamenet::msg::lemma_value_at(SvSkinChange::fields(), v@, 14);
            crate::gamenet::msg::lemma_value_at(SvSkinChange::fields(), v@, 15);
            crate::gamenet::msg::lemma_value_at(SvSkinChange::fields(), v@, 16);
            crate::gamenet::msg::lemma_value_at(SvSkinChange::fields(), v@, 17);
            crate::gamenet::msg::lemma_value_at(SvSkinChange::fields(), v@, 18);
        }
        let r = SvSkinChange {
            client_id: int_at(v, 0),
            skin_part_names: [str_at(v, 1), str_at(v, 2), str_at(v, 3), str_at(v, 4), str_at(v, 5), str_at(v, 6)],
            use_custom_colors: [int_at(v, 7) != 0, int_at(v, 8) != 0, int_at(v, 9) != 0, int_at(v, 10) != 0, int_at(v, 11) != 0, int_at(v, 12) != 0],
            skin_part_colors: [int_at(v, 13), int_at(v, 14), int_at(v, 15), int_at(v, 16), int_at(v, 17), int_at(v, 18)],
        };
        proof {
            assert(r.items() =~= items_of(v@));
        }
        r
    }

    /// Reads the message from `p`; a message read in full warns about
    /// bytes left over, which it consumes.
    pub fn decode(warns: &mut Vec<Warning>, p: &mut Unpacker<'a>) -> (r: Result<SvSkinChange<'a>, Error>)
        ensures
            decoded_msg(
                SvSkinChange::fields(),
                old(p)@,
                final(p)@,
                old(warns)@,
                final(warns)@,
                match r {
                    Ok(x) => Ok(x.items()),
                    Err(e) => Err(e),
                },
            ),
    {
        let fields: [Field; 19] = [Field::Int(0i32, 63i32), Field::Sanitized, Field::Sanitized, Field::Sanitized, Field::Sanitized, Field::Sanitized, Field::Sanitized, Field::Int(0i32, 1i32), Field::Int(0i32, 1i32), Field::Int(0i32, 1i32), Field::Int(0i32, 1i32), Field::Int(0i32, 1i32), Field::Int(0i32, 1i32), Field::Int(i32::MIN, i32::MAX), Field::Int(i32::MIN, i32::MAX), Field::Int(i32::MIN, i32::MAX), Field::Int(i32::MIN, i32::MAX), Field::Int(i32::MIN, i32::MAX), Field::Int(i32::MIN, i32::MAX)];
        proof {
            assert(fields@ =~= SvSkinChange::fields());
        }
        let v = match read_fields(warns, p, &fields) {
            Ok(v) => v,
            Err(e) => return Err(e),
        };
        let result = SvSkinChange::from_values(v.as_slice());
        p.finish(warns);
        Ok(result)
    }

    /// Writes the message into `p`; fails if it does not fit.
    #[verifier::spinoff_prover]
    #[verifier::rlimit(100)]
    pub fn encode(&self, p: Packer) -> (r: Result<Vec<u8>, CapacityError>)
        requires
            self.valid(),
        ensures
            (r is Ok) <==> p@.len() + encoding(self.items()).len() <= p.capacity(),
            r matches Ok(b) ==> b@ == p@ + encoding(self.items()),
    {
        let mut values: Vec<Value> = Vec::new();
        values.push(Value::Int(self.client_id));
        values.push(Value::Str(self.skin_part_names[0]));
        values.push(Value::Str(self.skin_part_names[1]));
        values.push(Value::Str(self.skin_part_names[2]));
        values.push(Value::Str(self.skin_part_names[3]));
        values.push(Value::Str(self.skin_part_names[4]));
        values.push(Value::Str(self.skin_part_names[5]));
        values.push(Value::Int(if self.use_custom_colors[0] { 1 } else { 0 }));
        values.push(Value::Int(if self.use_custom_colors[1] { 1 } else { 0 }));
        values.push(Value::Int(if self.use_custom_colors[2] { 1 } else { 0 }));
        values.push(Value::Int(if self.use_custom_colors[3] { 1 } else { 0 }));
        values.push(Value::Int(if self.use_custom_colors[4] { 1 } else { 0 }));
        values.push(Value::Int(if self.use_custom_colors[5] { 1 } else { 0 }));
        values.push(Value::Int(self.skin_part_colors[0]));
        values.push(Value::Int(self.skin_part_colors[1]));
        values.push(Value::Int(self.skin_part_colors[2]));
        values.push(Value::Int(self.skin_part_colors[3]));
        values.push(Value::Int(self.skin_part_colors[4]));
        values.push(Value::Int(self.skin_part_colors[5]));
        proof {
            assert(items_of(values@) =~= self.items());
            lemma_sv_skin_change_writable(*self);
        }
        let mut p = p;
        match write_values(&mut p, values.as_slice()) {
            Ok(()) => Ok(p.written()),
            Err(e) => Err(e),
        }
    }
}

/// A valid `SvSkinChange` fits its fields and its strings hold no NUL.
#[verifier::spinoff_prover]
#[verifier::rlimit(100)]
proof fn lemma_sv_skin_change_writable<'a>(x: SvSkinChange<'a>)
    requires
        x.valid(),
    ensures
        fits_msg(SvSkinChange::fields(), x.items()),
        writable(x.items()),
{
    assert forall|i: int| 0 <= i < 19 implies #[trigger] crate::gamenet::msg::accepts(SvSkinChange::fields()[i], x.items()[i]) && (x.items()[i] matches Item::Str(s) ==> no_nul(s)) by {
        if i == 0 {
            assert(x.items()[0] == Item::Int(x.client_id));
        } else if i == 1 {
            assert(x.items()[1] == Item::Str(x.skin_part_names[0]@));
            crate::gamenet::msg::lemma_no_control_no_nul(x.skin_part_names[0]@);
        } else if i == 2 {
            assert(x.items()[2] == Item::Str(x.skin_part_names[1]@));
            crate::gamenet::msg::lemma_no_control_no_nul(x.skin_part_names[1]@);
        } else if i == 3 {
            assert(x.items()[3] == Item::Str(x.skin_part_names[2]@));
            crate::gamenet::msg::lemma_no_control_no_nul(x.skin_part_names[2]@);
        } else if i == 4 {
            assert(x.items()[4] == Item::Str(x.skin_part_names[3]@));
            crate::gamenet::msg::lemma_no_control_no_nul(x.skin_part_names[3]@);
        } else if i == 5 {
            assert(x.items()[5] == Item::Str(x.skin_part_names[4]@));
            crate::gamenet::msg::lemma_no_control_no_nul(x.skin_part_names[4]@);
        } else if i == 6 {
            assert(x.items()[6] == Item::Str(x.skin_part_names[5]@));
            crate::gamenet::msg::lemma_no_control_no_nul(x.skin_part_names[5]@);
        } else if i == 7 {
            assert(x.items()[7] == Item::Int(bool_int(x.use_custom_colors[0])));
        } else if i == 8 {
            assert(x.items()[8] == Item::Int(bool_int(x.use_custom_colors[1])));
        } else if i == 9 {
            assert(x.items()[9] == Item::Int(bool_int(x.use_custom_colors[2])));
        } else if i == 10 {
            assert(x.items()[10] == Item::Int(bool_int(x.use_custom_colors[3])));
        } else if i == 11 {
            assert(x.items()[11] == Item::Int(bool_int(x.use_custom_colors[4])));
        } else if i == 12 {
            assert(x.items()[12] == Item::Int(bool_int(x.use_custom_colors[5])));
        } else if i == 13 {
            assert(x.items()[13] == Item::Int(x.skin_part_colors[0]));
        } else if i == 14 {
            assert(x.items()[14] == Item::Int(x.skin_part_colors[1]));
        } else if i == 15 {
            assert(x.items()[15] == Item::Int(x.skin_part_colors[2]));
        } else if i == 16 {
            assert(x.items()[16] == Item::Int(x.skin_part_colors[3]));
        } else if i == 17 {
            assert(x.items()[17] == Item::Int(x.skin_part_colors[4]));
        } else if i == 18 {
            assert(x.items()[18] == Item::Int(x.skin_part_colors[5]));
        }
    }
}

/// Reading the encoding of a valid `SvSkinChange`, followed by anything, gives
/// back its fields without warnings, and no other `SvSkinChange` has the same
/// fields.
#[verifier::spinoff_prover]
#[verifier::rlimit(100)]
pub proof fn lemma_sv_skin_change_roundtrip<'a>(x: SvSkinChange<'a>, y: SvSkinChange<'a>, rest: Seq<u8>)
    requires
        x.valid(),
    ensures
        parse(SvSkinChange::fields(), encoding(x.items()) + rest) == (Ok::<Seq<Item>, Error>(x.items()), rest, Seq::<Warning>::empty()),
        y.items() == x.items() ==> y == x,
{
    lemma_sv_skin_change_writable(x);
    lemma_parse_encoding(SvSkinChange::fields(), x.items(), rest);
    if y.items() == x.items() {
        assert(y.items()[0] == x.items()[0]);
        assert(y.items()[1] == x.items()[1]);
        assert(y.skin_part_names[0] =~= x.skin_part_names[0]);
        assert(y.items()[2] == x.items()[2]);
        assert(y.skin_part_names[1] =~= x.skin_part_names[1]);
        assert(y.items()[3] == x.items()[3]);
        assert(y.skin_part_names[2] =~= x.skin_part_names[2]);
        assert(y.items()[4] == x.items()[4]);
        assert(y.skin_part_names[3] =~= x.skin_part_names[3]);
        assert(y.items()[5] == x.items()[5]);
        assert(y.skin_part_names[4] =~= x.skin_part_names[4]);
        assert(y.items()[6] == x.items()[6]);
        assert(y.skin_part_names[5] =~= x.skin_part_names[5]);
        assert(y.skin_part_names =~= x.skin_part_names);
        assert(y.items()[7] == x.items()[7]);
        assert(y.items()[8] == x.items()[8]);
        assert(y.items()[9] == x.items()[9]);
        assert(y.items()[10] == x.items()[10]);
        assert(y.items()[11] == x.items()[11]);
        assert(y.items()[12] == x.items()[12]);
        assert(y.use_custom_colors =~= x.use_custom_colors);
        assert(y.items()[13] == x.items()[13]);
        assert(y.items()[14] == x.items()[14]);
        assert(y.items()[15] == x.items()[15]);
        assert(y.items()[16] == x.items()[16]);
        assert(y.items()[17] == x.items()[17]);
        assert(y.items()[18] == x.items()[18]);
        assert(y.skin_part_colors =~= x.skin_part_colors);
    }
}

impl<'a> ClSkinChange<'a> {
    /// The fields of the message, in the order they are sent.
    pub open spec fn items(self) -> Seq<Item> {
        seq![Item::Str(self.skin_part_names[0]@), Item::Str(self.skin_part_names[1]@), Item::Str(self.skin_part_names[2]@), Item::Str(self.skin_part_names[3]@), Item::Str(self.skin_part_names[4]@), Item::Str(self.skin_part_names[5]@), Item::Int(bool_int(self.use_custom_colors[0])), Item::Int(bool_int(self.use_custom_colors[1])), Item::Int(bool_int(self.use_custom_colors[2])), Item::Int(bool_int(self.use_custom_colors[3])), Item::Int(bool_int(self.use_custom_colors[4])), Item::Int(bool_int(self.use_custom_colors[5])), Item::Int(self.skin_part_colors[0]), Item::Int(self.skin_part_colors[1]), Item::Int(self.skin_part_colors[2]), Item::Int(self.skin_part_colors[3]), Item::Int(self.skin_part_colors[4]), Item::Int(self.skin_part_colors[5])]
    }

    /// The kinds of the fields.
    pub open spec fn fields() -> Seq<Field> {
        seq![Field::Sanitized, Field::Sanitized, Field::Sanitized, Field::Sanitized, Field::Sanitized, Field::Sanitized, Field::Int(0i32, 1i32), Field::Int(0i32, 1i32), Field::Int(0i32, 1i32), Field::Int(0i32, 1i32), Field::Int(0i32, 1i32), Field::Int(0i32, 1i32), Field::Int(i32::MIN, i32::MAX), Field::Int(i32::MIN, i32::MAX), Field::Int(i32::MIN, i32::MAX), Field::Int(i32::MIN, i32::MAX), Field::Int(i32::MIN, i32::MAX), Field::Int(i32::MIN, i32::MAX)]
    }

    /// The message can be sent: integers lie in their ranges and strings
    /// hold no NUL, sanitized ones no control characters.
    pub open spec fn valid(self) -> bool {
        &&& no_control(self.skin_part_names[0]@)
        &&& no_control(self.skin_part_names[1]@)
        &&& no_control(self.skin_part_names[2]@)
        &&& no_control(self.skin_part_names[3]@)
        &&& no_control(self.skin_part_names[4]@)
        &&& no_control(self.skin_part_names[5]@)
    }

    #[verifier::spinoff_prover]
    #[verifier::rlimit(100)]
    fn from_values(v: &[Value<'a>]) -> (r: ClSkinChange<'a>)
        requires
            fits_msg(ClSkinChange::fields(), items_of(v@)),
        ensures
            r.items() == items_of(v@),
    {
        proof {
            crate::gamenet::msg::lemma_value_at(ClSkinChange::fields(), v@, 0);
            crate::gamenet::msg::lemma_value_at(ClSkinChange::fields(), v@, 1);
            crate::gamenet::msg::lemma_value_at(ClSkinChange::fields(), v@, 2);
            crate::gamenet::msg::lemma_value_at(ClSkinChange::fields(), v@, 3);
            crate::gamenet::msg::lemma_value_at(ClSkinChange::fields(), v@, 4);
            crate::gamenet::msg::lemma_value_at(ClSkinChange::fields(), v@, 5);
            crate::gamenet::msg::lemma_value_at(ClSkinChange::fields(), v@, 6);
            crate::gamenet::msg::lemma_value_at(ClSkinChange::fields(), v@, 7);
            crate::gamenet::msg::lemma_value_at(ClSkinChange::fields(), v@, 8);
            crate::gamenet::msg::lemma_value_at(ClSkinChange::fields(), v@, 9);
            crate::gamenet::msg::lemma_value_at(ClSkinChange::fields(), v@, 10);
            crate::gamenet::msg::lemma_value_at(ClSkinChange::fields(), v@, 11);
            crate::gamenet::msg::lemma_value_at(ClSkinChange::fields(), v@, 12);
            crate::gamenet::msg::lemma_value_at(ClSkinChange::fields(), v@, 13);
            crate::gamenet::msg::lemma_value_at(ClSkinChange::fields(), v@, 14);
            crate::gamenet::msg::lemma_value_at(ClSkinChange::fields(), v@, 15);
            crate::gamenet::msg::lemma_value_at(ClSkinChange::fields(), v@, 16);
            crate::gamenet::msg::lemma_value_at(ClSkinChange::fields(), v@, 17);
        }
        let r = ClSkinChange {
            skin_part_names: [str_at(v, 0), str_at(v, 1), str_at(v, 2), str_at(v, 3), str_at(v, 4), str_at(v, 5)],
            use_custom_colors: [int_at(v, 6) != 0, int_at(v, 7) != 0, int_at(v, 8) != 0, int_at(v, 9) != 0, int_at(v, 10) != 0, int_at(v, 11) != 0],
            skin_part_colors: [int_at(v, 12), int_at(v, 13), int_at(v, 14), int_at(v, 15), int_at(v, 16), int_at(v, 17)],
        };
        proof {
            assert(r.items() =~= items_of(v@));
        }
        r
    }

    /// Reads the message from `p`; a message read in full warns about
    /// bytes left over, which it consumes.
    pub fn decode(warns: &mut Vec<Warning>, p: &mut Unpacker<'a>) -> (r: Result<ClSkinChange<'a>, Error>)
        ensures
            decoded_msg(
                ClSkinChange::fields(),
                old(p)@,
                final(p)@,
                old(warns)@,
                final(warns)@,
                match r {
                    Ok(x) => Ok(x.items()),
                    Err(e) => Err(e),
                },
            ),
    {
        let fields: [Field; 18] = [Field::Sanitized, Field::Sanitized, Field::Sanitized, Field::Sanitized, Field::Sanitized, Field::Sanitized, Field::Int(0i32, 1i32), Field::Int(0i32, 1i32), Field::Int(0i32, 1i32), Field::Int(0i32, 1i32), Field::Int(0i32, 1i32), Field::Int(0i32, 1i32), Field::Int(i32::MIN, i32::MAX), Field::Int(i32::MIN, i32::MAX), Field::Int(i32::MIN, i32::MAX), Field::Int(i32::MIN, i32::MAX), Field::Int(i32::MIN, i32::MAX), Field::Int(i32::MIN, i32::MAX)];
        proof {
            assert(fields@ =~= ClSkinChange::fields());
        }
        let v = match read_fields(warns, p, &fields) {
            Ok(v) => v,
            Err(e) => return Err(e),
        };
        let result = ClSkinChange::from_values(v.as_slice());
        p.finish(warns);
        Ok(result)
    }

    /// Writes the message into `p`; fails if it does not fit.
    #[verifier::spinoff_prover]
    #[verifier::rlimit(100)]
    pub fn encode(&self, p: Packer) -> (r: Result<Vec<u8>, CapacityError>)
        requires
            self.valid(),
        ensures
            (r is Ok) <==> p@.len() + encoding(self.items()).len() <= p.capacity(),
            r matches Ok(b) ==> b@ == p@ + encoding(self.items()),
    {
        let mut values: Vec<Value> = Vec::new();
        values.push(Value::Str(self.skin_part_names[0]));
        values.push(Value::Str(self.skin_part_names[1]));
        values.push(Value::Str(self.skin_part_names[2]));
        values.push(Value::Str(self.skin_part_names[3]));
        values.push(Value::Str(self.skin_part_names[4]));
        values.push(Value::Str(self.skin_part_names[5]));
        values.push(Value::Int(if self.use_custom_colors[0] { 1 } else { 0 }));
        values.push(Value::Int(if self.use_custom_colors[1] { 1 } else { 0 }));
        values.push(Value::Int(if self.use_custom_colors[2] { 1 } else { 0 }));
        values.push(Value::Int(if self.use_custom_colors[3] { 1 } else { 0 }));
        values.push(Value::Int(if self.use_custom_colors[4] { 1 } else { 0 }));
        values.push(Value::Int(if self.use_custom_colors[5] { 1 } else { 0 }));
        values.push(Value::Int(self.skin_part_colors[0]));
        values.push(Value::Int(self.skin_part_colors[1]));
        values.push(Value::Int(self.skin_part_colors[2]));
        values.push(Value::Int(self.skin_part_colors[3]));
        values.push(Value::Int(self.skin_part_colors[4]));
        values.push(Value::Int(self.skin_part_colors[5]));
        proof {
            assert(items_of(values@) =~= self.items());
            lemma_cl_skin_change_writable(*self);
        }
        let mut p = p;
        match write_values(&mut p, values.as_slice()) {
            Ok(()) => Ok(p.written()),
            Err(e) => Err(e),
        }
    }
}

/// A valid `ClSkinChange` fits its fields and its strings hold no NUL.
#[verifier::spinoff_prover]
#[verifier::rlimit(100)]
proof fn lemma_cl_skin_change_writable<'a>(x: ClSkinChange<'a>)
    requires
        x.valid(),
    ensures
        fits_msg(ClSkinChange::fields(), x.items()),
        writable(x.items()),
{
    assert forall|i: int| 0 <= i < 18 implies #[trigger] crate::gamenet::msg::accepts(ClSkinChange::fields()[i], x.items()[i]) && (x.items()[i] matches Item::Str(s) ==> no_nul(s)) by {
        if i == 0 {
            assert(x.items()[0] == Item::Str(x.skin_part_names[0]@));
            crate::gamenet::msg::lemma_no_control_no_nul(x.skin_part_names[0]@);
        } else if i == 1 {
            assert(x.items()[1] == Item::Str(x.skin_part_names[1]@));
            crate::gamenet::msg::lemma_no_control_no_nul(x.skin_part_names[1]@);
        } else if i == 2 {
            assert(x.items()[2] == Item::Str(x.skin_part_names[2]@));
            crate::gamenet::msg::lemma_no_control_no_nul(x.skin_part_names[2]@);
        } else if i == 3 {
            assert(x.items()[3] == Item::Str(x.skin_part_names[3]@));
            crate::gamenet::msg::lemma_no_control_no_nul(x.skin_part_names[3]@);
        } else if i == 4 {
            assert(x.items()[4] == Item::Str(x.skin_part_names[4]@));
            crate::gamenet::msg::lemma_no_control_no_nul(x.skin_part_names[4]@);
        } else if i == 5 {
            assert(x.items()[5] == Item::Str(x.skin_part_names[5]@));
            crate::gamenet::msg::lemma_no_control_no_nul(x.skin_part_names[5]@);
        } else if i == 6 {
            assert(x.items()[6] == Item::Int(bool_int(x.use_custom_colors[0])));
        } else if i == 7 {
            assert(x.items()[7] == Item::Int(bool_int(x.use_custom_colors[1])));
        } else if i == 8 {
            assert(x.items()[8] == Item::Int(bool_int(x.use_custom_colors[2])));
        } else if i == 9 {
            assert(x.items()[9] == Item::Int(bool_int(x.use_custom_colors[3])));
        } else if i == 10 {
            assert(x.items()[10] == Item::Int(bool_int(x.use_custom_colors[4])));
        } else if i == 11 {
            assert(x.items()[11] == Item::Int(bool_int(x.use_custom_colors[5])));
        } else if i == 12 {
            assert(x.items()[12] == Item::Int(x.skin_part_colors[0]));
        } else if i == 13 {
            assert(x.items()[13] == Item::Int(x.skin_part_colors[1]));
        } else if i == 14 {
            assert(x.items()[14] == Item::Int(x.skin_part_colors[2]));
        } else if i == 15 {
            assert(x.items()[15] == Item::Int(x.skin_part_colors[3]));
        } else if i == 16 {
            assert(x.items()[16] == Item::Int(x.skin_part_colors[4]));
        } else if i == 17 {
            assert(x.items()[17] == Item::Int(x.skin_part_colors[5]));
        }
    }
}

/// Reading the encoding of a valid `ClSkinChange`, followed by anything, gives
/// back its fields without warnings, and no other `ClSkinChange` has the same
/// fields.
#[verifier::spinoff_prover]
#[verifier::rlimit(100)]
pub proof fn lemma_cl_skin_change_roundtrip<'a>(x: ClSkinChange<'a>, y: ClSkinChange<'a>, rest: Seq<u8>)
    requires
        x.valid(),
    ensures
        parse(ClSkinChange::fields(), encoding(x.items()) + rest) == (Ok::<Seq<Item>, Error>(x.items()), rest, Seq::<Warning>::empty()),
        y.items() == x.items() ==> y == x,
{
    lemma_cl_skin_change_writable(x);
    lemma_parse_encoding(ClSkinChange::fields(), x.items(), rest);
    if y.items() == x.items() {
        assert(y.items()[0] == x.items()[0]);
        assert(y.skin_part_names[0] =~= x.skin_part_names[0]);
        assert(y.items()[1] == x.items()[1]);
        assert(y.skin_part_names[1] =~= x.skin_part_names[1]);
        assert(y.items()[2] == x.items()[2]);
        assert(y.skin_part_names[2] =~= x.skin_part_names[2]);
        assert(y.items()[3] == x.items()[3]);
        assert(y.skin_part_names[3] =~= x.skin_part_names[3]);
        assert(y.items()[4] == x.items()[4]);
        assert(y.skin_part_names[4] =~= x.skin_part_names[4]);
        assert(y.items()[5] == x.items()[5]);
        assert(y.skin_part_names[5] =~= x.skin_part_names[5]);
        assert(y.skin_part_names =~= x.skin_part_names);
        assert(y.items()[6] == x.items()[6]);
        assert(y.items()[7] == x.items()[7]);
        assert(y.items()[8] == x.items()[8]);
        assert(y.items()[9] == x.items()[9]);
        assert(y.items()[10] == x.items()[10]);
        assert(y.items()[11] == x.items()[11]);
        assert(y.use_custom_colors =~= x.use_custom_colors);
        assert(y.items()[12] == x.items()[12]);
        assert(y.items()[13] == x.items()[13]);
        assert(y.items()[14] == x.items()[14]);
        assert(y.items()[15] == x.items()[15]);
        assert(y.items()[16] == x.items()[16]);
        assert(y.items()[17] == x.items()[17]);
        assert(y.skin_part_colors =~= x.skin_part_colors);
    }
}

impl SvRaceFinish {
    /// The fields of the message, in the order they are sent.
    pub open spec fn items(self) -> Seq<Item> {
        seq![Item::Int(self.client_id), Item::Int(self.time), Item::Int(self.diff), Item::Int(bool_int(self.record_personal)), Item::Int(bool_int(self.record_server))]
    }

    /// The kinds of the fields.
    pub open spec fn fields() -> Seq<Field> {
        seq![Field::Int(0i32, 63i32), Field::Int(-1i32, i32::MAX), Field::Int(i32::MIN, i32::MAX), Field::Int(0i32, 1i32), Field::Int(0i32, 1i32)]
    }

    /// The message can be sent: integers lie in their ranges and strings
    /// hold no NUL, sanitized ones no control characters.
    pub open spec fn valid(self) -> bool {
        &&& 0i32 <= self.client_id && self.client_id <= 63i32
        &&& -1i32 <= self.time
    }

    fn from_values(v: &[Value]) -> (r: SvRaceFinish)
        requires
            fits_msg(SvRaceFinish::fields(), items_of(v@)),
        ensures
            r.items() == items_of(v@),
    {
        proof {
            crate::gamenet::msg::lemma_value_at(SvRaceFinish::fields(), v@, 0);
            crate::gamenet::msg::lemma_value_at(SvRaceFinish::fields(), v@, 1);
            crate::gamenet::msg::lemma_value_at(SvRaceFinish::fields(), v@, 2);
            crate::gamenet::msg::lemma_value_at(SvRaceFinish::fields(), v@, 3);
            crate::gamenet::msg::lemma_value_at(SvRaceFinish::fields(), v@, 4);
        }
        let r = SvRaceFinish {
            client_id: int_at(v, 0),
            time: int_at(v, 1),
            diff: int_at(v, 2),
            record_personal: int_at(v, 3) != 0,
            record_server: int_at(v, 4) != 0,
        };
        proof {
            assert(r.items() =~= items_of(v@));
        }
        r
    }

    /// Reads the message from `p`; a message read in full warns about
    /// bytes left over, which it consumes.
    pub fn decode(warns: &mut Vec<Warning>, p: &mut Unpacker) -> (r: Result<SvRaceFinish, Error>)
        ensures
            decoded_msg(
                SvRaceFinish::fields(),
                old(p)@,
                final(p)@,
                old(warns)@,
                final(warns)@,
                match r {
                    Ok(x) => Ok(x.items()),
                    Err(e) => Err(e),
                },
            ),
    {
        let fields: [Field; 5] = [Field::Int(0i32, 63i32), Field::Int(-1i32, i32::MAX), Field::Int(i32::MIN, i32::MAX), Field::Int(0i32, 1i32), Field::Int(0i32, 1i32)];
        proof {
            assert(fields@ =~= SvRaceFinish::fields());
        }
        let v = match read_fields(warns, p, &fields) {
            Ok(v) => v,
            Err(e) => return Err(e),
        };
        let result = SvRaceFinish::from_values(v.as_slice());
        p.finish(warns);
        Ok(result)
    }

    /// Writes the message into `p`; fails if it does not fit.
    pub fn encode(&self, p: Packer) -> (r: Result<Vec<u8>, CapacityError>)
        requires
            self.valid(),
        ensures
            (r is Ok) <==> p@.len() + encoding(self.items()).len() <= p.capacity(),
            r matches Ok(b) ==> b@ == p@ + encoding(self.items()),
    {
        let mut values: Vec<Value> = Vec::new();
        values.push(Value::Int(self.client_id));
        values.push(Value::Int(self.time));
        values.push(Value::Int(self.diff));
        values.push(Value::Int(if self.record_personal { 1 } else { 0 }));
        values.push(Value::Int(if self.record_server { 1 } else { 0 }));
        proof {
            assert(items_of(values@) =~= self.items());
            lemma_sv_race_finish_writable(*self);
        }
        let mut p = p;
        match write_values(&mut p, values.as_slice()) {
            Ok(()) => Ok(p.written()),
            Err(e) => Err(e),
        }
    }
}

/// A valid `SvRaceFinish` fits its fields and its strings hold no NUL.
proof fn lemma_sv_race_finish_writable(x: SvRaceFinish)
    requires
        x.valid(),
    ensures
        fits_msg(SvRaceFinish::fields(), x.items()),
        writable(x.items()),
{
    assert forall|i: int| 0 <= i < 5 implies #[trigger] crate::gamenet::msg::accepts(SvRaceFinish::fields()[i], x.items()[i]) && (x.items()[i] matches Item::Str(s) ==> no_nul(s)) by {
        if i == 0 {
            assert(x.items()[0] == Item::Int(x.client_id));
        } else if i == 1 {
            assert(x.items()[1] == Item::Int(x.time));
        } else if i == 2 {
            assert(x.items()[2] == Item::Int(x.diff));
        } else if i == 3 {
            assert(x.items()[3] == Item::Int(bool_int(x.record_personal)));
        } else if i == 4 {
            assert(x.items()[4] == Item::Int(bool_int(x.record_server)));
        }
    }
}

/// Reading the encoding of a valid `SvRaceFinish`, followed by anything, gives
/// back its fields without warnings, and no other `SvRaceFinish` has the same
/// fields.
pub proof fn lemma_sv_race_finish_roundtrip(x: SvRaceFinish, y: SvRaceFinish, rest: Seq<u8>)
    requires
        x.valid(),
    ensures
        parse(SvRaceFinish::fields(), encoding(x.items()) + rest) == (Ok::<Seq<Item>, Error>(x.items()), rest, Seq::<Warning>::empty()),
        y.items() == x.items() ==> y == x,
{
    lemma_sv_race_finish_writable(x);
    lemma_parse_encoding(SvRaceFinish::fields(), x.items(), rest);
    if y.items() == x.items() {
        assert(y.items()[0] == x.items()[0]);
        assert(y.items()[1] == x.items()[1]);
        assert(y.items()[2] == x.items()[2]);
        assert(y.items()[3] == x.items()[3]);
        assert(y.items()[4] == x.items()[4]);
    }
}

impl SvCheckpoint {
    /// The fields of the message, in the order they are sent.
    pub open spec fn items(self) -> Seq<Item> {
        seq![Item::Int(self.diff)]
    }

    /// The kinds of the fields.
    pub open spec fn fields() -> Seq<Field> {
        seq![Field::Int(i32::MIN, i32::MAX)]
    }

    /// The message can be sent: integers lie in their ranges and strings
    /// hold no NUL, sanitized ones no control characters.
    pub open spec fn valid(self) -> bool {
        true
    }

    fn from_values(v: &[Value]) -> (r: SvCheckpoint)
        requires
            fits_msg(SvCheckpoint::fields(), items_of(v@)),
        ensures
            r.items() == items_of(v@),
    {
        proof {
            crate::gamenet::msg::lemma_value_at(SvCheckpoint::fields(), v@, 0);
        }
        let r = SvCheckpoint {
            diff: int_at(v, 0),
        };
        proof {
            assert(r.items() =~= items_of(v@));
        }
        r
    }

    /// Reads the message from `p`; a message read in full warns about
    /// bytes left over, which it consumes.
    pub fn decode(warns: &mut Vec<Warning>, p: &mut Unpacker) -> (r: Result<SvCheckpoint, Error>)
        ensures
            decoded_msg(
                SvCheckpoint::fields(),
                old(p)@,
                final(p)@,
                old(warns)@,
                final(warns)@,
                match r {
                    Ok(x) => Ok(x.items()),
                    Err(e) => Err(e),
                },
            ),
    {
        let fields: [Field; 1] = [Field::Int(i32::MIN, i32::MAX)];
        proof {
            assert(fields@ =~= SvCheckpoint::fields());
        }
        let v = match read_fields(warns, p, &fields) {
            Ok(v) => v,
            Err(e) => return Err(e),
        };
        let result = SvCheckpoint::from_values(v.as_slice());
        p.finish(warns);
        Ok(result)
    }

    /// Writes the message into `p`; fails if it does not fit.
    pub fn encode(&self, p: Packer) -> (r: Result<Vec<u8>, CapacityError>)
        ensures
            (r is Ok) <==> p@.len() + encoding(self.items()).len() <= p.capacity(),
            r matches Ok(b) ==> b@ == p@ + encoding(self.items()),
    {
        let mut values: Vec<Value> = Vec::new();
        values.push(Value::Int(self.diff));
        proof {
            assert(items_of(values@) =~= self.items());
            lemma_sv_checkpoint_writable(*self);
        }
        let mut p = p;
        match write_values(&mut p, values.as_slice()) {
            Ok(()) => Ok(p.written()),
            Err(e) => Err(e),
        }
    }
}

/// A valid `SvCheckpoint` fits its fields and its strings hold no NUL.
proof fn lemma_sv_checkpoint_writable(x: SvCheckpoint)
    requires
        x.valid(),
    ensures
        fits_msg(SvCheckpoint::fields(), x.items()),
        writable(x.items()),
{
    assert forall|i: int| 0 <= i < 1 implies #[trigger] crate::gamenet::msg::accepts(SvCheckpoint::fields()[i], x.items()[i]) && (x.items()[i] matches Item::Str(s) ==> no_nul(s)) by {
        if i == 0 {
            assert(x.items()[0] == Item::Int(x.diff));
        }
    }
}

/// Reading the encoding of a valid `SvCheckpoint`, followed by anything, gives
/// back its fields without warnings, and no other `SvCheckpoint` has the same
/// fields.
pub proof fn lemma_sv_checkpoint_roundtrip(x: SvCheckpoint, y: SvCheckpoint, rest: Seq<u8>)
    requires
        x.valid(),
    ensures
        parse(SvCheckpoint::fields(), encoding(x.items()) + rest) == (Ok::<Seq<Item>, Error>(x.items()), rest, Seq::<Warning>::empty()),
        y.items() == x.items() ==> y == x,
{
    lemma_sv_checkpoint_writable(x);
    lemma_parse_encoding(SvCheckpoint::fields(), x.items(), rest);
    if y.items() == x.items() {
        assert(y.items()[0] == x.items()[0]);
    }
}

impl<'a> SvCommandInfo<'a> {
    /// The fields of the message, in the order they are sent.
    pub open spec fn items(self) -> Seq<Item> {
        seq![Item::Str(self.name@), Item::Str(self.args_format@), Item::Str(self.help_text@)]
    }

    /// The kinds of the fields.
    pub open spec fn fields() -> Seq<Field> {
        seq![Field::Sanitized, Field::Sanitized, Field::Sanitized]
    }

    /// The message can be sent: integers lie in their ranges and strings
    /// hold no NUL, sanitized ones no control characters.
    pub open spec fn valid(self) -> bool {
        &&& no_control(self.name@)
        &&& no_control(self.args_format@)
        &&& no_control(self.help_text@)
    }

    fn from_values(v: &[Value<'a>]) -> (r: SvCommandInfo<'a>)
        requires
            fits_msg(SvCommandInfo::fields(), items_of(v@)),
        ensures
            r.items() == items_of(v@),
    {
        proof {
            crate::gamenet::msg::lemma_value_at(SvCommandInfo::fields(), v@, 0);
            crate::gamenet::msg::lemma_value_at(SvCommandInfo::fields(), v@, 1);
            crate::gamenet::msg::lemma_value_at(SvCommandInfo::fields(), v@, 2);
        }
        let r = SvCommandInfo {
            name: str_at(v, 0),
            args_format: str_at(v, 1),
            help_text: str_at(v, 2),
        };
        proof {
            assert(r.items() =~= items_of(v@));
        }
        r
    }

    /// Reads the message from `p`; a message read in full warns about
    /// bytes left over, which it consumes.
    pub fn decode(warns: &mut Vec<Warning>, p: &mut Unpacker<'a>) -> (r: Result<SvCommandInfo<'a>, Error>)
        ensures
            decoded_msg(
                SvCommandInfo::fields(),
                old(p)@,
                final(p)@,
                old(warns)@,
                final(warns)@,
                match r {
                    Ok(x) => Ok(x.items()),
                    Err(e) => Err(e),
                },
            ),
    {
        let fields: [Field; 3] = [Field::Sanitized, Field::Sanitized, Field::Sanitized];
        proof {
            assert(fields@ =~= SvCommandInfo::fields());
        }
        let v = match read_fields(warns, p, &fields) {
            Ok(v) => v,
            Err(e) => return Err(e),
        };
        let result = SvCommandInfo::from_values(v.as_slice());
        p.finish(warns);
        Ok(result)
    }

    /// Writes the message into `p`; fails if it does not fit.
    pub fn encode(&self, p: Packer) -> (r: Result<Vec<u8>, CapacityError>)
        requires
            self.valid(),
        ensures
            (r is Ok) <==> p@.len() + encoding(self.items()).len() <= p.capacity(),
            r matches Ok(b) ==> b@ == p@ + encoding(self.items()),
    {
        let mut values: Vec<Value> = Vec::new();
        values.push(Value::Str(self.name));
        values.push(Value::Str(self.args_format));
        values.push(Value::Str(self.help_text));
        proof {
            assert(items_of(values@) =~= self.items());
            lemma_sv_command_info_writable(*self);
        }
        let mut p = p;
        match write_values(&mut p, values.as_slice()) {
            Ok(()) => Ok(p.written()),
            Err(e) => Err(e),
        }
    }
}

/// A valid `SvCommandInfo` fits its fields and its strings hold no NUL.
proof fn lemma_sv_command_info_writable<'a>(x: SvCommandInfo<'a>)
    requires
        x.valid(),
    ensures
        fits_msg(SvCommandInfo::fields(), x.items()),
        writable(x.items()),
{
    assert forall|i: int| 0 <= i < 3 implies #[trigger] crate::gamenet::msg::accepts(SvCommandInfo::fields()[i], x.items()[i]) && (x.items()[i] matches Item::Str(s) ==> no_nul(s)) by {
        if i == 0 {
            assert(x.items()[0] == Item::Str(x.name@));
            crate::gamenet::msg::lemma_no_control_no_nul(x.name@);
        } else if i == 1 {
            assert(x.items()[1] == Item::Str(x.args_format@));
            crate::gamenet::msg::lemma_no_control_no_nul(x.args_format@);
        } else if i == 2 {
            assert(x.items()[2] == Item::Str(x.help_text@));
            crate::gamenet::msg::lemma_no_control_no_nul(x.help_text@);
        }
    }
}

/// Reading the encoding of a valid `SvCommandInfo`, followed by anything, gives
/// back its fields without warnings, and no other `SvCommandInfo` has the same
/// fields.
pub proof fn lemma_sv_command_info_roundtrip<'a>(x: SvCommandInfo<'a>, y: SvCommandInfo<'a>, rest: Seq<u8>)
    requires
        x.valid(),
    ensures
        parse(SvCommandInfo::fields(), encoding(x.items()) + rest) == (Ok::<Seq<Item>, Error>(x.items()), rest, Seq::<Warning>::empty()),
        y.items() == x.items() ==> y == x,
{
    lemma_sv_command_info_writable(x);
    lemma_parse_encoding(SvCommandInfo::fields(), x.items(), rest);
    if y.items() == x.items() {
        assert(y.items()[0] == x.items()[0]);
        assert(y.name =~= x.name);
        assert(y.items()[1] == x.items()[1]);
        assert(y.args_format =~= x.args_format);
        assert(y.items()[2] == x.items()[2]);
        assert(y.help_text =~= x.help_text);
    }
}

impl<'a> SvCommandInfoRemove<'a> {
    /// The fields of the message, in the order they are sent.
    pub open spec fn items(self) -> Seq<Item> {
        seq![Item::Str(self.name@)]
    }

    /// The kinds of the fields.
    pub open spec fn fields() -> Seq<Field> {
        seq![Field::Sanitized]
    }

    /// The message can be sent: integers lie in their ranges and strings
    /// hold no NUL, sanitized ones no control characters.
    pub open spec fn valid(self) -> bool {
        &&& no_control(self.name@)
    }

    fn from_values(v: &[Value<'a>]) -> (r: SvCommandInfoRemove<'a>)
        requires
            fits_msg(SvCommandInfoRemove::fields(), items_of(v@)),
        ensures
            r.items() == items_of(v@),
    {
        proof {
            crate::gamenet::msg::lemma_value_at(SvCommandInfoRemove::fields(), v@, 0);
        }
        let r = SvCommandInfoRemove {
            name: str_at(v, 0),
        };
        proof {
            assert(r.items() =~= items_of(v@));
        }
        r
    }

    /// Reads the message from `p`; a message read in full warns about
    /// bytes left over, which it consumes.
    pub fn decode(warns: &mut Vec<Warning>, p: &mut Unpacker<'a>) -> (r: Result<SvCommandInfoRemove<'a>, Error>)
        ensures
            decoded_msg(
                SvCommandInfoRemove::fields(),
                old(p)@,
                final(p)@,
                old(warns)@,
                final(warns)@,
                match r {
                    Ok(x) => Ok(x.items()),
                    Err(e) => Err(e),
                },
            ),
    {
        let fields: [Field; 1] = [Field::Sanitized];
        proof {
            assert(fields@ =~= SvCommandInfoRemove::fields());
        }
        let v = match read_fields(warns, p, &fields) {
            Ok(v) => v,
            Err(e) => return Err(e),
        };
        let result = SvCommandInfoRemove::from_values(v.as_slice());
        p.finish(warns);
        Ok(result)
    }

    /// Writes the message into `p`; fails if it does not fit.
    pub fn encode(&self, p: Packer) -> (r: Result<Vec<u8>, CapacityError>)
        requires
            self.valid(),
        ensures
            (r is Ok) <==> p@.len() + encoding(self.items()).len() <= p.capacity(),
            r matches Ok(b) ==> b@ == p@ + encoding(self.items()),
    {
        let mut values: Vec<Value> = Vec::new();
        values.push(Value::Str(self.name));
        proof {
            assert(items_of(values@) =~= self.items());
            lemma_sv_command_info_remove_writable(*self);
        }
        let mut p = p;
        match write_values(&mut p, values.as_slice()) {
            Ok(()) => Ok(p.written()),
            Err(e) => Err(e),
        }
    }
}

/// A valid `SvCommandInfoRemove` fits its fields and its strings hold no NUL.
proof fn lemma_sv_command_info_remove_writable<'a>(x: SvCommandInfoRemove<'a>)
    requires
        x.valid(),
    ensures
        fits_msg(SvCommandInfoRemove::fields(), x.items()),
        writable(x.items()),
{
    assert forall|i: int| 0 <= i < 1 implies #[trigger] crate::gamenet::msg::accepts(SvCommandInfoRemove::fields()[i], x.items()[i]) && (x.items()[i] matches Item::Str(s) ==> no_nul(s)) by {
        if i == 0 {
            assert(x.items()[0] == Item::Str(x.name@));
            crate::gamenet::msg::lemma_no_control_no_nul(x.name@);
        }
    }
}

/// Reading the encoding of a valid `SvCommandInfoRemove`, followed by anything, gives
/// back its fields without warnings, and no other `SvCommandInfoRemove` has the same
/// fields.
pub proof fn lemma_sv_command_info_remove_roundtrip<'a>(x: SvCommandInfoRemove<'a>, y: SvCommandInfoRemove<'a>, rest: Seq<u8>)
    requires
        x.valid(),
    ensures
        parse(SvCommandInfoRemove::fields(), encoding(x.items()) + rest) == (Ok::<Seq<Item>, Error>(x.items()), rest, Seq::<Warning>::empty()),
        y.items() == x.items() ==> y == x,
{
    lemma_sv_command_info_remove_writable(x);
    lemma_parse_encoding(SvCommandInfoRemove::fields(), x.items(), rest);
    if y.items() == x.items() {
        assert(y.items()[0] == x.items()[0]);
        assert(y.name =~= x.name);
    }
}

impl<'a> ClCommand<'a> {
    /// The fields of the message, in the order they are sent.
    pub open spec fn items(self) -> Seq<Item> {
        seq![Item::Str(self.name@), Item::Str(self.arguments@)]
    }

    /// The kinds of the fields.
    pub open spec fn fields() -> Seq<Field> {
        seq![Field::Sanitized, Field::Sanitized]
    }

    /// The message can be sent: integers lie in their ranges and strings
    /// hold no NUL, sanitized ones no control characters.
    pub open spec fn valid(self) -> bool {
        &&& no_control(self.name@)
        &&& no_control(self.arguments@)
    }

    fn from_values(v: &[Value<'a>]) -> (r: ClCommand<'a>)
        requires
            fits_msg(ClCommand::fields(), items_of(v@)),
        ensures
            r.items() == items_of(v@),
    {
        proof {
            crate::gamenet::msg::lemma_value_at(ClCommand::fields(), v@, 0);
            crate::gamenet::msg::lemma_value_at(ClCommand::fields(), v@, 1);
        }
        let r = ClCommand {
            name: str_at(v, 0),
            arguments: str_at(v, 1),
        };
        proof {
            assert(r.items() =~= items_of(v@));
        }
        r
    }

    /// Reads the message from `p`; a message read in full warns about
    /// bytes left over, which it consumes.
    pub fn decode(warns: &mut Vec<Warning>, p: &mut Unpacker<'a>) -> (r: Result<ClCommand<'a>, Error>)
        ensures
            decoded_msg(
                ClCommand::fields(),
                old(p)@,
                final(p)@,
                old(warns)@,
                final(warns)@,
                match r {
                    Ok(x) => Ok(x.items()),
                    Err(e) => Err(e),
                },
            ),
    {
        let fields: [Field; 2] = [Field::Sanitized, Field::Sanitized];
        proof {
            assert(fields@ =~= ClCommand::fields());
        }
        let v = match read_fields(warns, p, &fields) {
            Ok(v) => v,
            Err(e) => return Err(e),
        };
        let result = ClCommand::from_values(v.as_slice());
        p.finish(warns);
        Ok(result)
    }

    /// Writes the message into `p`; fails if it does not fit.
    pub fn encode(&self, p: Packer) -> (r: Result<Vec<u8>, CapacityError>)
        requires
            self.valid(),
        ensures
            (r is Ok) <==> p@.len() + encoding(self.items()).len() <= p.capacity(),
            r matches Ok(b) ==> b@ == p@ + encoding(self.items()),
    {
        let mut values: Vec<Value> = Vec::new();
        values.push(Value::Str(self.name));
        values.push(Value::Str(self.arguments));
        proof {
            assert(items_of(values@) =~= self.items());
            lemma_cl_command_writable(*self);
        }
        let mut p = p;
        match write_values(&mut p, values.as_slice()) {
            Ok(()) => Ok(p.written()),
            Err(e) => Err(e),
        }
    }
}

/// A valid `ClCommand` fits its fields and its strings hold no NUL.
proof fn lemma_cl_command_writable<'a>(x: ClCommand<'a>)
    requires
        x.valid(),
    ensures
        fits_msg(ClCommand::fields(), x.items()),
        writable(x.items()),
{
    assert forall|i: int| 0 <= i < 2 implies #[trigger] crate::gamenet::msg::accepts(ClCommand::fields()[i], x.items()[i]) && (x.items()[i] matches Item::Str(s) ==> no_nul(s)) by {
        if i == 0 {
            assert(x.items()[0] == Item::Str(x.name@));
            crate::gamenet::msg::lemma_no_control_no_nul(x.name@);
        } else if i == 1 {
            assert(x.items()[1] == Item::Str(x.arguments@));
            crate::gamenet::msg::lemma_no_control_no_nul(x.arguments@);
        }
    }
}

/// Reading the encoding of a valid `ClCommand`, followed by anything, gives
/// back its fields without warnings, and no other `ClCommand` has the same
/// fields.
pub proof fn lemma_cl_command_roundtrip<'a>(x: ClCommand<'a>, y: ClCommand<'a>, rest: Seq<u8>)
    requires
        x.valid(),
    ensures
        parse(ClCommand::fields(), encoding(x.items()) + rest) == (Ok::<Seq<Item>, Error>(x.items()), rest, Seq::<Warning>::empty()),
        y.items() == x.items() ==> y == x,
{
    lemma_cl_command_writable(x);
    lemma_parse_encoding(ClCommand::fields(), x.items(), rest);
    if y.items() == x.items() {
        assert(y.items()[0] == x.items()[0]);
        assert(y.name =~= x.name);
        assert(y.items()[1] == x.items()[1]);
        assert(y.arguments =~= x.arguments);
    }
}

impl<'a> Game<'a> {
    /// The fields of the message.
    pub open spec fn items(self) -> Seq<Item> {
        match self {
            Game::SvMotd(m) => m.items(),
            Game::SvBroadcast(m) => m.items(),
            Game::SvChat(m) => m.items(),
            Game::SvTeam(m) => m.items(),
            Game::SvKillMsg(m) => m.items(),
            Game::SvTuneParams(m) => m.items(),
            Game::SvExtraProjectile(m) => m.items(),
            Game::SvReadyToEnter(m) => m.items(),
            Game::SvWeaponPickup(m) => m.items(),
            Game::SvEmoticon(m) => m.items(),
            Game::SvVoteClearOptions(m) => m.items(),
            Game::SvVoteOptionListAdd(m) => m.items(),
            Game::SvVoteOptionAdd(m) => m.items(),
            Game::SvVoteOptionRemove(m) => m.items(),
            Game::SvVoteSet(m) => m.items(),
            Game::SvVoteStatus(m) => m.items(),
            Game::SvServerSettings(m) => m.items(),
            Game::SvClientInfo(m) => m.items(),
            Game::SvGameInfo(m) => m.items(),
            Game::SvClientDrop(m) => m.items(),
            Game::SvGameMsg(m) => m.items(),
            Game::DeClientEnter(m) => m.items(),
            Game::DeClientLeave(m) => m.items(),
            Game::ClSay(m) => m.items(),
            Game::ClSetTeam(m) => m.items(),
            Game::ClSetSpectatorMode(m) => m.items(),
            Game::ClStartInfo(m) => m.items(),
            Game::ClKill(m) => m.items(),
            Game::ClReadyChange(m) => m.items(),
            Game::ClEmoticon(m) => m.items(),
            Game::ClVote(m) => m.items(),
            Game::ClCallVote(m) => m.items(),
            Game::SvSkinChange(m) => m.items(),
            Game::ClSkinChange(m) => m.items(),
            Game::SvRaceFinish(m) => m.items(),
            Game::SvCheckpoint(m) => m.items(),
            Game::SvCommandInfo(m) => m.items(),
            Game::SvCommandInfoRemove(m) => m.items(),
            Game::ClCommand(m) => m.items(),
        }
    }

    /// The message can be sent.
    pub open spec fn valid(self) -> bool {
        match self {
            Game::SvMotd(m) => m.valid(),
            Game::SvBroadcast(m) => m.valid(),
            Game::SvChat(m) => m.valid(),
            Game::SvTeam(m) => m.valid(),
            Game::SvKillMsg(m) => m.valid(),
            Game::SvTuneParams(m) => m.valid(),
            Game::SvExtraProjectile(m) => m.valid(),
            Game::SvReadyToEnter(m) => m.valid(),
            Game::SvWeaponPickup(m) => m.valid(),
            Game::SvEmoticon(m) => m.valid(),
            Game::SvVoteClearOptions(m) => m.valid(),
            Game::SvVoteOptionListAdd(m) => m.valid(),
            Game::SvVoteOptionAdd(m) => m.valid(),
            Game::SvVoteOptionRemove(m) => m.valid(),
            Game::SvVoteSet(m) => m.valid(),
            Game::SvVoteStatus(m) => m.valid(),
            Game::SvServerSettings(m) => m.valid(),
            Game::SvClientInfo(m) => m.valid(),
            Game::SvGameInfo(m) => m.valid(),
            Game::SvClientDrop(m) => m.valid(),
            Game::SvGameMsg(m) => m.valid(),
            Game::DeClientEnter(m) => m.valid(),
            Game::DeClientLeave(m) => m.valid(),
            Game::ClSay(m) => m.valid(),
            Game::ClSetTeam(m) => m.valid(),
            Game::ClSetSpectatorMode(m) => m.valid(),
            Game::ClStartInfo(m) => m.valid(),
            Game::ClKill(m) => m.valid(),
            Game::ClReadyChange(m) => m.valid(),
            Game::ClEmoticon(m) => m.valid(),
            Game::ClVote(m) => m.valid(),
            Game::ClCallVote(m) => m.valid(),
            Game::SvSkinChange(m) => m.valid(),
            Game::ClSkinChange(m) => m.valid(),
            Game::SvRaceFinish(m) => m.valid(),
            Game::SvCheckpoint(m) => m.valid(),
            Game::SvCommandInfo(m) => m.valid(),
            Game::SvCommandInfoRemove(m) => m.valid(),
            Game::ClCommand(m) => m.valid(),
        }
    }

    /// The number of the message type.
    pub open spec fn msg_number(self) -> i32 {
        match self {
            Game::SvMotd(_) => SV_MOTD,
            Game::SvBroadcast(_) => SV_BROADCAST,
            Game::SvChat(_) => SV_CHAT,
            Game::SvTeam(_) => SV_TEAM,
            Game::SvKillMsg(_) => SV_KILL_MSG,
            Game::SvTuneParams(_) => SV_TUNE_PARAMS,
            Game::SvExtraProjectile(_) => SV_EXTRA_PROJECTILE,
            Game::SvReadyToEnter(_) => SV_READY_TO_ENTER,
            Game::SvWeaponPickup(_) => SV_WEAPON_PICKUP,
            Game::SvEmoticon(_) => SV_EMOTICON,
            Game::SvVoteClearOptions(_) => SV_VOTE_CLEAR_OPTIONS,
            Game::SvVoteOptionListAdd(_) => SV_VOTE_OPTION_LIST_ADD,
            Game::SvVoteOptionAdd(_) => SV_VOTE_OPTION_ADD,
            Game::SvVoteOptionRemove(_) => SV_VOTE_OPTION_REMOVE,
            Game::SvVoteSet(_) => SV_VOTE_SET,
            Game::SvVoteStatus(_) => SV_VOTE_STATUS,
            Game::SvServerSettings(_) => SV_SERVER_SETTINGS,
            Game::SvClientInfo(_) => SV_CLIENT_INFO,
            Game::SvGameInfo(_) => SV_GAME_INFO,
            Game::SvClientDrop(_) => SV_CLIENT_DROP,
            Game::SvGameMsg(_) => SV_GAME_MSG,
            Game::DeClientEnter(_) => DE_CLIENT_ENTER,
            Game::DeClientLeave(_) => DE_CLIENT_LEAVE,
            Game::ClSay(_) => CL_SAY,
            Game::ClSetTeam(_) => CL_SET_TEAM,
            Game::ClSetSpectatorMode(_) => CL_SET_SPECTATOR_MODE,
            Game::ClStartInfo(_) => CL_START_INFO,
            Game::ClKill(_) => CL_KILL,
            Game::ClReadyChange(_) => CL_READY_CHANGE,
            Game::ClEmoticon(_) => CL_EMOTICON,
            Game::ClVote(_) => CL_VOTE,
            Game::ClCallVote(_) => CL_CALL_VOTE,
            Game::SvSkinChange(_) => SV_SKIN_CHANGE,
            Game::ClSkinChange(_) => CL_SKIN_CHANGE,
            Game::SvRaceFinish(_) => SV_RACE_FINISH,
            Game::SvCheckpoint(_) => SV_CHECKPOINT,
            Game::SvCommandInfo(_) => SV_COMMAND_INFO,
            Game::SvCommandInfoRemove(_) => SV_COMMAND_INFO_REMOVE,
            Game::ClCommand(_) => CL_COMMAND,
        }
    }

    /// Reads a message of type `msg_id` from `p`.
    #[verifier::spinoff_prover]
    #[verifier::rlimit(100)]
    pub fn decode_msg(warns: &mut Vec<Warning>, msg_id: MessageId, p: &mut Unpacker<'a>) -> (r: Result<Game<'a>, Error>)
        ensures
            match msg_id {
                MessageId::Ordinal(t) => match msg_fields(t) {
                    Some(f) => decoded_msg(
                        f,
                        old(p)@,
                        final(p)@,
                        old(warns)@,
                        final(warns)@,
                        match r {
                            Ok(x) => Ok(x.items()),
                            Err(e) => Err(e),
                        },
                    ) && (r matches Ok(x) ==> x.msg_number() == t),
                    None => r == Err::<Game, Error>(Error::UnknownId) && final(p)@ == old(p)@ && final(warns)@ == old(warns)@,
                },
                MessageId::Uuid(_) => r == Err::<Game, Error>(Error::UnknownId) && final(p)@ == old(p)@ && final(warns)@ == old(warns)@,
            },
    {
        let t = match msg_id {
            MessageId::Ordinal(t) => t,
            MessageId::Uuid(_) => return Err(Error::UnknownId),
        };
        if t == SV_MOTD {
            match SvMotd::decode(warns, p) {
                Ok(m) => Ok(Game::SvMotd(m)),
                Err(e) => Err(e),
            }
        } else if t == SV_BROADCAST {
            match SvBroadcast::decode(warns, p) {
                Ok(m) => Ok(Game::SvBroadcast(m)),
                Err(e) => Err(e),
            }
        } else if t == SV_CHAT {
            match SvChat::decode(warns, p) {
                Ok(m) => Ok(Game::SvChat(m)),
                Err(e) => Err(e),
            }
        } else if t == SV_TEAM {
            match SvTeam::decode(warns, p) {
                Ok(m) => Ok(Game::SvTeam(m)),
                Err(e) => Err(e),
            }
        } else if t == SV_KILL_MSG {
            match SvKillMsg::decode(warns, p) {
                Ok(m) => Ok(Game::SvKillMsg(m)),
                Err(e) => Err(e),
            }
        } else if t == SV_TUNE_PARAMS {
            match SvTuneParams::decode(warns, p) {
                Ok(m) => Ok(Game::SvTuneParams(m)),
                Err(e) => Err(e),
            }
        } else if t == SV_EXTRA_PROJECTILE {
            match SvExtraProjectile::decode(warns, p) {
                Ok(m) => Ok(Game::SvExtraProjectile(m)),
                Err(e) => Err(e),
            }
        } else if t == SV_READY_TO_ENTER {
            match SvReadyToEnter::decode(warns, p) {
                Ok(m) => Ok(Game::SvReadyToEnter(m)),
                Err(e) => Err(e),
            }
        } else if t == SV_WEAPON_PICKUP {
            match SvWeaponPickup::decode(warns, p) {
                Ok(m) => Ok(Game::SvWeaponPickup(m)),
                Err(e) => Err(e),
            }
        } else if t == SV_EMOTICON {
            match SvEmoticon::decode(warns, p) {
                Ok(m) => Ok(Game::SvEmoticon(m)),
                Err(e) => Err(e),
            }
        } else if t == SV_VOTE_CLEAR_OPTIONS {
            match SvVoteClearOptions::decode(warns, p) {
                Ok(m) => Ok(Game::SvVoteClearOptions(m)),
                Err(e) => Err(e),
            }
        } else if t == SV_VOTE_OPTION_LIST_ADD {
            match SvVoteOptionListAdd::decode(warns, p) {
                Ok(m) => Ok(Game::SvVoteOptionListAdd(m)),
                Err(e) => Err(e),
            }
        } else if t == SV_VOTE_OPTION_ADD {
            match SvVoteOptionAdd::decode(warns, p) {
                Ok(m) => Ok(Game::SvVoteOptionAdd(m)),
                Err(e) => Err(e),
            }
        } else if t == SV_VOTE_OPTION_REMOVE {
            match SvVoteOptionRemove::decode(warns, p) {
                Ok(m) => Ok(Game::SvVoteOptionRemove(m)),
                Err(e) => Err(e),
            }
        } else if t == SV_VOTE_SET {
            match SvVoteSet::decode(warns, p) {
                Ok(m) => Ok(Game::SvVoteSet(m)),
                Err(e) => Err(e),
            }
        } else if t == SV_VOTE_STATUS {
            match SvVoteStatus::decode(warns, p) {
                Ok(m) => Ok(Game::SvVoteStatus(m)),
                Err(e) => Err(e),
            }
        } else if t == SV_SERVER_SETTINGS {
            match SvServerSettings::decode(warns, p) {
                Ok(m) => Ok(Game::SvServerSettings(m)),
                Err(e) => Err(e),
            }
        } else if t == SV_CLIENT_INFO {
            match SvClientInfo::decode(warns, p) {
                Ok(m) => Ok(Game::SvClientInfo(m)),
                Err(e) => Err(e),
            }
        } else if t == SV_GAME_INFO {
            match SvGameInfo::decode(warns, p) {
                Ok(m) => Ok(Game::SvGameInfo(m)),
                Err(e) => Err(e),
            }
        } else if t == SV_CLIENT_DROP {
            match SvClientDrop::decode(warns, p) {
                Ok(m) => Ok(Game::SvClientDrop(m)),
                Err(e) => Err(e),
            }
        } else if t == SV_GAME_MSG {
            match SvGameMsg::decode(warns, p) {
                Ok(m) => Ok(Game::SvGameMsg(m)),
                Err(e) => Err(e),
            }
        } else if t == DE_CLIENT_ENTER {
            match DeClientEnter::decode(warns, p) {
                Ok(m) => Ok(Game::DeClientEnter(m)),
                Err(e) => Err(e),
            }
        } else if t == DE_CLIENT_LEAVE {
            match DeClientLeave::decode(warns, p) {
                Ok(m) => Ok(Game::DeClientLeave(m)),
                Err(e) => Err(e),
            }
        } else if t == CL_SAY {
            match ClSay::decode(warns, p) {
                Ok(m) => Ok(Game::ClSay(m)),
                Err(e) => Err(e),
            }
        } else if t == CL_SET_TEAM {
            match ClSetTeam::decode(warns, p) {
                Ok(m) => Ok(Game::ClSetTeam(m)),
                Err(e) => Err(e),
            }
        } else if t == CL_SET_SPECTATOR_MODE {
            match ClSetSpectatorMode::decode(warns, p) {
                Ok(m) => Ok(Game::ClSetSpectatorMode(m)),
                Err(e) => Err(e),
            }
        } else if t == CL_START_INFO {
            match ClStartInfo::decode(warns, p) {
                Ok(m) => Ok(Game::ClStartInfo(m)),
                Err(e) => Err(e),
            }
        } else if t == CL_KILL {
            match ClKill::decode(warns, p) {
                Ok(m) => Ok(Game::ClKill(m)),
                Err(e) => Err(e),
            }
        } else if t == CL_READY_CHANGE {
            match ClReadyChange::decode(warns, p) {
                Ok(m) => Ok(Game::ClReadyChange(m)),
                Err(e) => Err(e),
            }
        } else if t == CL_EMOTICON {
            match ClEmoticon::decode(warns, p) {
                Ok(m) => Ok(Game::ClEmoticon(m)),
                Err(e) => Err(e),
            }
        } else if t == CL_VOTE {
            match ClVote::decode(warns, p) {
                Ok(m) => Ok(Game::ClVote(m)),
                Err(e) => Err(e),
            }
        } else if t == CL_CALL_VOTE {
            match ClCallVote::decode(warns, p) {
                Ok(m) => Ok(Game::ClCallVote(m)),
                Err(e) => Err(e),
            }
        } else if t == SV_SKIN_CHANGE {
            match SvSkinChange::decode(warns, p) {
                Ok(m) => Ok(Game::SvSkinChange(m)),
                Err(e) => Err(e),
            }
        } else if t == CL_SKIN_CHANGE {
            match ClSkinChange::decode(warns, p) {
                Ok(m) => Ok(Game::ClSkinChange(m)),
                Err(e) => Err(e),
            }
        } else if t == SV_RACE_FINISH {
            match SvRaceFinish::decode(warns, p) {
                Ok(m) => Ok(Game::SvRaceFinish(m)),
                Err(e) => Err(e),
            }
        } else if t == SV_CHECKPOINT {
            match SvCheckpoint::decode(warns, p) {
                Ok(m) => Ok(Game::SvCheckpoint(m)),
                Err(e) => Err(e),
            }
        } else if t == SV_COMMAND_INFO {
            match SvCommandInfo::decode(warns, p) {
                Ok(m) => Ok(Game::SvCommandInfo(m)),
                Err(e) => Err(e),
            }
        } else if t == SV_COMMAND_INFO_REMOVE {
            match SvCommandInfoRemove::decode(warns, p) {
                Ok(m) => Ok(Game::SvCommandInfoRemove(m)),
                Err(e) => Err(e),
            }
        } else if t == CL_COMMAND {
            match ClCommand::decode(warns, p) {
                Ok(m) => Ok(Game::ClCommand(m)),
                Err(e) => Err(e),
            }
        } else {
            Err(Error::UnknownId)
        }
    }

    /// The type of the message.
    pub fn msg_id(&self) -> (r: MessageId)
        ensures
            r == MessageId::Ordinal(self.msg_number()),
    {
        match *self {
            Game::SvMotd(_) => MessageId::Ordinal(SV_MOTD),
            Game::SvBroadcast(_) => MessageId::Ordinal(SV_BROADCAST),
            Game::SvChat(_) => MessageId::Ordinal(SV_CHAT),
            Game::SvTeam(_) => MessageId::Ordinal(SV_TEAM),
            Game::SvKillMsg(_) => MessageId::Ordinal(SV_KILL_MSG),
            Game::SvTuneParams(_) => MessageId::Ordinal(SV_TUNE_PARAMS),
            Game::SvExtraProjectile(_) => MessageId::Ordinal(SV_EXTRA_PROJECTILE),
            Game::SvReadyToEnter(_) => MessageId::Ordinal(SV_READY_TO_ENTER),
            Game::SvWeaponPickup(_) => MessageId::Ordinal(SV_WEAPON_PICKUP),
            Game::SvEmoticon(_) => MessageId::Ordinal(SV_EMOTICON),
            Game::SvVoteClearOptions(_) => MessageId::Ordinal(SV_VOTE_CLEAR_OPTIONS),
            Game::SvVoteOptionListAdd(_) => MessageId::Ordinal(SV_VOTE_OPTION_LIST_ADD),
            Game::SvVoteOptionAdd(_) => MessageId::Ordinal(SV_VOTE_OPTION_ADD),
            Game::SvVoteOptionRemove(_) => MessageId::Ordinal(SV_VOTE_OPTION_REMOVE),
            Game::SvVoteSet(_) => MessageId::Ordinal(SV_VOTE_SET),
            Game::SvVoteStatus(_) => MessageId::Ordinal(SV_VOTE_STATUS),
            Game::SvServerSettings(_) => MessageId::Ordinal(SV_SERVER_SETTINGS),
            Game::SvClientInfo(_) => MessageId::Ordinal(SV_CLIENT_INFO),
            Game::SvGameInfo(_) => MessageId::Ordinal(SV_GAME_INFO),
            Game::SvClientDrop(_) => MessageId::Ordinal(SV_CLIENT_DROP),
            Game::SvGameMsg(_) => MessageId::Ordinal(SV_GAME_MSG),
            Game::DeClientEnter(_) => MessageId::Ordinal(DE_CLIENT_ENTER),
            Game::DeClientLeave(_) => MessageId::Ordinal(DE_CLIENT_LEAVE),
            Game::ClSay(_) => MessageId::Ordinal(CL_SAY),
            Game::ClSetTeam(_) => MessageId::Ordinal(CL_SET_TEAM),
            Game::ClSetSpectatorMode(_) => MessageId::Ordinal(CL_SET_SPECTATOR_MODE),
            Game::ClStartInfo(_) => MessageId::Ordinal(CL_START_INFO),
            Game::ClKill(_) => MessageId::Ordinal(CL_KILL),
            Game::ClReadyChange(_) => MessageId::Ordinal(CL_READY_CHANGE),
            Game::ClEmoticon(_) => MessageId::Ordinal(CL_EMOTICON),
            Game::ClVote(_) => MessageId::Ordinal(CL_VOTE),
            Game::ClCallVote(_) => MessageId::Ordinal(CL_CALL_VOTE),
            Game::SvSkinChange(_) => MessageId::Ordinal(SV_SKIN_CHANGE),
            Game::ClSkinChange(_) => MessageId::Ordinal(CL_SKIN_CHANGE),
            Game::SvRaceFinish(_) => MessageId::Ordinal(SV_RACE_FINISH),
            Game::SvCheckpoint(_) => MessageId::Ordinal(SV_CHECKPOINT),
            Game::SvCommandInfo(_) => MessageId::Ordinal(SV_COMMAND_INFO),
            Game::SvCommandInfoRemove(_) => MessageId::Ordinal(SV_COMMAND_INFO_REMOVE),
            Game::ClCommand(_) => MessageId::Ordinal(CL_COMMAND),
        }
    }

    /// Writes the message into `p`; fails if it does not fit.
    pub fn encode_msg(&self, p: Packer) -> (r: Result<Vec<u8>, CapacityError>)
        requires
            self.valid(),
        ensures
            (r is Ok) <==> p@.len() + encoding(self.items()).len() <= p.capacity(),
            r matches Ok(b) ==> b@ == p@ + encoding(self.items()),
    {
        match *self {
            Game::SvMotd(ref m) => m.encode(p),
            Game::SvBroadcast(ref m) => m.encode(p),
            Game::SvChat(ref m) => m.encode(p),
            Game::SvTeam(ref m) => m.encode(p),
            Game::SvKillMsg(ref m) => m.encode(p),
            Game::SvTuneParams(ref m) => m.encode(p),
            Game::SvExtraProjectile(ref m) => m.encode(p),
            Game::SvReadyToEnter(ref m) => m.encode(p),
            Game::SvWeaponPickup(ref m) => m.encode(p),
            Game::SvEmoticon(ref m) => m.encode(p),
            Game::SvVoteClearOptions(ref m) => m.encode(p),
            Game::SvVoteOptionListAdd(ref m) => m.encode(p),
            Game::SvVoteOptionAdd(ref m) => m.encode(p),
            Game::SvVoteOptionRemove(ref m) => m.encode(p),
            Game::SvVoteSet(ref m) => m.encode(p),
            Game::SvVoteStatus(ref m) => m.encode(p),
            Game::SvServerSettings(ref m) => m.encode(p),
            Game::SvClientInfo(ref m) => m.encode(p),
            Game::SvGameInfo(ref m) => m.encode(p),
            Game::SvClientDrop(ref m) => m.encode(p),
            Game::SvGameMsg(ref m) => m.encode(p),
            Game::DeClientEnter(ref m) => m.encode(p),
            Game::DeClientLeave(ref m) => m.encode(p),
            Game::ClSay(ref m) => m.encode(p),
            Game::ClSetTeam(ref m) => m.encode(p),
            Game::ClSetSpectatorMode(ref m) => m.encode(p),
            Game::ClStartInfo(ref m) => m.encode(p),
            Game::ClKill(ref m) => m.encode(p),
            Game::ClReadyChange(ref m) => m.encode(p),
            Game::ClEmoticon(ref m) => m.encode(p),
            Game::ClVote(ref m) => m.encode(p),
            Game::ClCallVote(ref m) => m.encode(p),
            Game::SvSkinChange(ref m) => m.encode(p),
            Game::ClSkinChange(ref m) => m.encode(p),
            Game::SvRaceFinish(ref m) => m.encode(p),
            Game::SvCheckpoint(ref m) => m.encode(p),
            Game::SvCommandInfo(ref m) => m.encode(p),
            Game::SvCommandInfoRemove(ref m) => m.encode(p),
            Game::ClCommand(ref m) => m.encode(p),
        }
    }
}

/// The kinds of the fields of messages of type `t`, if it is known.
pub open spec fn msg_fields(t: i32) -> Option<Seq<Field>> {
    if t == SV_MOTD {
        Some(SvMotd::fields())
    } else if t == SV_BROADCAST {
        Some(SvBroadcast::fields())
    } else if t == SV_CHAT {
        Some(SvChat::fields())
    } else if t == SV_TEAM {
        Some(SvTeam::fields())
    } else if t == SV_KILL_MSG {
        Some(SvKillMsg::fields())
    } else if t == SV_TUNE_PARAMS {
        Some(SvTuneParams::fields())
    } else if t == SV_EXTRA_PROJECTILE {
        Some(SvExtraProjectile::fields())
    } else if t == SV_READY_TO_ENTER {
        Some(SvReadyToEnter::fields())
    } else if t == SV_WEAPON_PICKUP {
        Some(SvWeaponPickup::fields())
    } else if t == SV_EMOTICON {
        Some(SvEmoticon::fields())
    } else if t == SV_VOTE_CLEAR_OPTIONS {
        Some(SvVoteClearOptions::fields())
    } else if t == SV_VOTE_OPTION_LIST_ADD {
        Some(SvVoteOptionListAdd::fields())
    } else if t == SV_VOTE_OPTION_ADD {
        Some(SvVoteOptionAdd::fields())
    } else if t == SV_VOTE_OPTION_REMOVE {
        Some(SvVoteOptionRemove::fields())
    } else if t == SV_VOTE_SET {
        Some(SvVoteSet::fields())
    } else if t == SV_VOTE_STATUS {
        Some(SvVoteStatus::fields())
    } else if t == SV_SERVER_SETTINGS {
        Some(SvServerSettings::fields())
    } else if t == SV_CLIENT_INFO {
        Some(SvClientInfo::fields())
    } else if t == SV_GAME_INFO {
        Some(SvGameInfo::fields())
    } else if t == SV_CLIENT_DROP {
        Some(SvClientDrop::fields())
    } else if t == SV_GAME_MSG {
        Some(SvGameMsg::fields())
    } else if t == DE_CLIENT_ENTER {
        Some(DeClientEnter::fields())
    } else if t == DE_CLIENT_LEAVE {
        Some(DeClientLeave::fields())
    } else if t == CL_SAY {
        Some(ClSay::fields())
    } else if t == CL_SET_TEAM {
        Some(ClSetTeam::fields())
    } else if t == CL_SET_SPECTATOR_MODE {
        Some(ClSetSpectatorMode::fields())
    } else if t == CL_START_INFO {
        Some(ClStartInfo::fields())
    } else if t == CL_KILL {
        Some(ClKill::fields())
    } else if t == CL_READY_CHANGE {
        Some(ClReadyChange::fields())
    } else if t == CL_EMOTICON {
        Some(ClEmoticon::fields())
    } else if t == CL_VOTE {
        Some(ClVote::fields())
    } else if t == CL_CALL_VOTE {
        Some(ClCallVote::fields())
    } else if t == SV_SKIN_CHANGE {
        Some(SvSkinChange::fields())
    } else if t == CL_SKIN_CHANGE {
        Some(ClSkinChange::fields())
    } else if t == SV_RACE_FINISH {
        Some(SvRaceFinish::fields())
    } else if t == SV_CHECKPOINT {
        Some(SvCheckpoint::fields())
    } else if t == SV_COMMAND_INFO {
        Some(SvCommandInfo::fields())
    } else if t == SV_COMMAND_INFO_REMOVE {
        Some(SvCommandInfoRemove::fields())
    } else if t == CL_COMMAND {
        Some(ClCommand::fields())
    } else {
        None
    }
}

/// Reading the encoding of a valid game message, as a message of its type,
/// gives back its fields with nothing left over and no warning, and no
/// other message of the type has the same fields.
pub proof fn lemma_game_roundtrip<'a>(x: Game<'a>, y: Game<'a>)
    requires
        x.valid(),
    ensures
        msg_fields(x.msg_number()) matches Some(f) && parse(f, encoding(x.items())) == (
            Ok::<Seq<Item>, Error>(x.items()),
            Seq::<u8>::empty(),
            Seq::<Warning>::empty(),
        ),
        y.msg_number() == x.msg_number() && y.items() == x.items() ==> y == x,
{
    match x {
        Game::SvMotd(a) => {
            let b = match y {
                Game::SvMotd(b) => b,
                _ => a,
            };
            lemma_sv_motd_roundtrip(a, b, Seq::empty());
            assert(encoding(a.items()) + Seq::<u8>::empty() =~= encoding(a.items()));
        },
        Game::SvBroadcast(a) => {
            let b = match y {
                Game::SvBroadcast(b) => b,
                _ => a,
            };
            lemma_sv_broadcast_roundtrip(a, b, Seq::empty());
            assert(encoding(a.items()) + Seq::<u8>::empty() =~= encoding(a.items()));
        },
        Game::SvChat(a) => {
            let b = match y {
                Game::SvChat(b) => b,
                _ => a,
            };
            lemma_sv_chat_roundtrip(a, b, Seq::empty());
            assert(encoding(a.items()) + Seq::<u8>::empty() =~= encoding(a.items()));
        },
        Game::SvTeam(a) => {
            let b = match y {
                Game::SvTeam(b) => b,
                _ => a,
            };
            lemma_sv_team_roundtrip(a, b, Seq::empty());
            assert(encoding(a.items()) + Seq::<u8>::empty() =~= encoding(a.items()));
        },
        Game::SvKillMsg(a) => {
            let b = match y {
                Game::SvKillMsg(b) => b,
                _ => a,
            };
            lemma_sv_kill_msg_roundtrip(a, b, Seq::empty());
            assert(encoding(a.items()) + Seq::<u8>::empty() =~= encoding(a.items()));
        },
        Game::SvTuneParams(a) => {
            let b = match y {
                Game::SvTuneParams(b) => b,
                _ => a,
            };
            lemma_sv_tune_params_roundtrip(a, b, Seq::empty());
            assert(encoding(a.items()) + Seq::<u8>::empty() =~= encoding(a.items()));
        },
        Game::SvExtraProjectile(a) => {
            let b = match y {
                Game::SvExtraProjectile(b) => b,
                _ => a,
            };
            lemma_sv_extra_projectile_roundtrip(a, b, Seq::empty());
            assert(encoding(a.items()) + Seq::<u8>::empty() =~= encoding(a.items()));
        },
        Game::SvReadyToEnter(a) => {
            let b = match y {
                Game::SvReadyToEnter(b) => b,
                _ => a,
            };
            lemma_sv_ready_to_enter_roundtrip(a, b, Seq::empty());
            assert(encoding(a.items()) + Seq::<u8>::empty() =~= encoding(a.items()));
        },
        Game::SvWeaponPickup(a) => {
            let b = match y {
                Game::SvWeaponPickup(b) => b,
                _ => a,
            };
            lemma_sv_weapon_pickup_roundtrip(a, b, Seq::empty());
            assert(encoding(a.items()) + Seq::<u8>::empty() =~= encoding(a.items()));
        },
        Game::SvEmoticon(a) => {
            let b = match y {
                Game::SvEmoticon(b) => b,
                _ => a,
            };
            lemma_sv_emoticon_roundtrip(a, b, Seq::empty());
            assert(encoding(a.items()) + Seq::<u8>::empty() =~= encoding(a.items()));
        },
        Game::SvVoteClearOptions(a) => {
            let b = match y {
                Game::SvVoteClearOptions(b) => b,
                _ => a,
            };
            lemma_sv_vote_clear_options_roundtrip(a, b, Seq::empty());
            assert(encoding(a.items()) + Seq::<u8>::empty() =~= encoding(a.items()));
        },
        Game::SvVoteOptionListAdd(a) => {
            let b = match y {
                Game::SvVoteOptionListAdd(b) => b,
                _ => a,
            };
            lemma_sv_vote_option_list_add_roundtrip(a, b, Seq::empty());
            assert(encoding(a.items()) + Seq::<u8>::empty() =~= encoding(a.items()));
        },
        Game::SvVoteOptionAdd(a) => {
            let b = match y {
                Game::SvVoteOptionAdd(b) => b,
                _ => a,
            };
            lemma_sv_vote_option_add_roundtrip(a, b, Seq::empty());
            assert(encoding(a.items()) + Seq::<u8>::empty() =~= encoding(a.items()));
        },
        Game::SvVoteOptionRemove(a) => {
            let b = match y {
                Game::SvVoteOptionRemove(b) => b,
                _ => a,
            };
            lemma_sv_vote_option_remove_roundtrip(a, b, Seq::empty());
            assert(encoding(a.items()) + Seq::<u8>::empty() =~= encoding(a.items()));
        },
        Game::SvVoteSet(a) => {
            let b = match y {
                Game::SvVoteSet(b) => b,
                _ => a,
            };
            lemma_sv_vote_set_roundtrip(a, b, Seq::empty());
            assert(encoding(a.items()) + Seq::<u8>::empty() =~= encoding(a.items()));
        },
        Game::SvVoteStatus(a) => {
            let b = match y {
                Game::SvVoteStatus(b) => b,
                _ => a,
            };
            lemma_sv_vote_status_roundtrip(a, b, Seq::empty());
            assert(encoding(a.items()) + Seq::<u8>::empty() =~= encoding(a.items()));
        },
        Game::SvServerSettings(a) => {
            let b = match y {
                Game::SvServerSettings(b) => b,
                _ => a,
            };
            lemma_sv_server_settings_roundtrip(a, b, Seq::empty());
            assert(encoding(a.items()) + Seq::<u8>::empty() =~= encoding(a.items()));
        },
        Game::SvClientInfo(a) => {
            let b = match y {
                Game::SvClientInfo(b) => b,
                _ => a,
            };
            lemma_sv_client_info_roundtrip(a, b, Seq::empty());
            assert(encoding(a.items()) + Seq::<u8>::empty() =~= encoding(a.items()));
        },
        Game::SvGameInfo(a) => {
            let b = match y {
                Game::SvGameInfo(b) => b,
                _ => a,
            };
            lemma_sv_game_info_roundtrip(a, b, Seq::empty());
            assert(encoding(a.items()) + Seq::<u8>::empty() =~= encoding(a.items()));
        },
        Game::SvClientDrop(a) => {
            let b = match y {
                Game::SvClientDrop(b) => b,
                _ => a,
            };
            lemma_sv_client_drop_roundtrip(a, b, Seq::empty());
            assert(encoding(a.items()) + Seq::<u8>::empty() =~= encoding(a.items()));
        },
        Game::SvGameMsg(a) => {
            let b = match y {
                Game::SvGameMsg(b) => b,
                _ => a,
            };
            lemma_sv_game_msg_roundtrip(a, b, Seq::empty());
            assert(encoding(a.items()) + Seq::<u8>::empty() =~= encoding(a.items()));
        },
        Game::DeClientEnter(a) => {
            let b = match y {
                Game::DeClientEnter(b) => b,
                _ => a,
            };
            lemma_de_client_enter_roundtrip(a, b, Seq::empty());
            assert(encoding(a.items()) + Seq::<u8>::empty() =~= encoding(a.items()));
        },
        Game::DeClientLeave(a) => {
            let b = match y {
                Game::DeClientLeave(b) => b,
                _ => a,
            };
            lemma_de_client_leave_roundtrip(a, b, Seq::empty());
            assert(encoding(a.items()) + Seq::<u8>::empty() =~= encoding(a.items()));
        },
        Game::ClSay(a) => {
            let b = match y {
                Game::ClSay(b) => b,
                _ => a,
            };
            lemma_cl_say_roundtrip(a, b, Seq::empty());
            assert(encoding(a.items()) + Seq::<u8>::empty() =~= encoding(a.items()));
        },
        Game::ClSetTeam(a) => {
            let b = match y {
                Game::ClSetTeam(b) => b,
                _ => a,
            };
            lemma_cl_set_team_roundtrip(a, b, Seq::empty());
            assert(encoding(a.items()) + Seq::<u8>::empty() =~= encoding(a.items()));
        },
        Game::ClSetSpectatorMode(a) => {
            let b = match y {
                Game::ClSetSpectatorMode(b) => b,
                _ => a,
            };
            lemma_cl_set_spectator_mode_roundtrip(a, b, Seq::empty());
            assert(encoding(a.items()) + Seq::<u8>::empty() =~= encoding(a.items()));
        },
        Game::ClStartInfo(a) => {
            let b = match y {
                Game::ClStartInfo(b) => b,
                _ => a,
            };
            lemma_cl_start_info_roundtrip(a, b, Seq::empty());
            assert(encoding(a.items()) + Seq::<u8>::empty() =~= encoding(a.items()));
        },
        Game::ClKill(a) => {
            let b = match y {
                Game::ClKill(b) => b,
                _ => a,
            };
            lemma_cl_kill_roundtrip(a, b, Seq::empty());
            assert(encoding(a.items()) + Seq::<u8>::empty() =~= encoding(a.items()));
        },
        Game::ClReadyChange(a) => {
            let b = match y {
                Game::ClReadyChange(b) => b,
                _ => a,
            };
            lemma_cl_ready_change_roundtrip(a, b, Seq::empty());
            assert(encoding(a.items()) + Seq::<u8>::empty() =~= encoding(a.items()));
        },
        Game::ClEmoticon(a) => {
            let b = match y {
                Game::ClEmoticon(b) => b,
                _ => a,
            };
            lemma_cl_emoticon_roundtrip(a, b, Seq::empty());
            assert(encoding(a.items()) + Seq::<u8>::empty() =~= encoding(a.items()));
        },
        Game::ClVote(a) => {
            let b = match y {
                Game::ClVote(b) => b,
                _ => a,
            };
            lemma_cl_vote_roundtrip(a, b, Seq::empty());
            assert(encoding(a.items()) + Seq::<u8>::empty() =~= encoding(a.items()));
        },
        Game::ClCallVote(a) => {
            let b = match y {
                Game::ClCallVote(b) => b,
                _ => a,
            };
            lemma_cl_call_vote_roundtrip(a, b, Seq::empty());
            assert(encoding(a.items()) + Seq::<u8>::empty() =~= encoding(a.items()));
        },
        Game::SvSkinChange(a) => {
            let b = match y {
                Game::SvSkinChange(b) => b,
                _ => a,
            };
            lemma_sv_skin_change_roundtrip(a, b, Seq::empty());
            assert(encoding(a.items()) + Seq::<u8>::empty() =~= encoding(a.items()));
        },
        Game::ClSkinChange(a) => {
            let b = match y {
                Game::ClSkinChange(b) => b,
                _ => a,
            };
            lemma_cl_skin_change_roundtrip(a, b, Seq::empty());
            assert(encoding(a.items()) + Seq::<u8>::empty() =~= encoding(a.items()));
        },
        Game::SvRaceFinish(a) => {
            let b = match y {
                Game::SvRaceFinish(b) => b,
                _ => a,
            };
            lemma_sv_race_finish_roundtrip(a, b, Seq::empty());
            assert(encoding(a.items()) + Seq::<u8>::empty() =~= encoding(a.items()));
        },
        Game::SvCheckpoint(a) => {
            let b = match y {
                Game::SvCheckpoint(b) => b,
                _ => a,
            };
            lemma_sv_checkpoint_roundtrip(a, b, Seq::empty());
            assert(encoding(a.items()) + Seq::<u8>::empty() =~= encoding(a.items()));
        },
        Game::SvCommandInfo(a) => {
            let b = match y {
                Game::SvCommandInfo(b) => b,
                _ => a,
            };
            lemma_sv_command_info_roundtrip(a, b, Seq::empty());
            assert(encoding(a.items()) + Seq::<u8>::empty() =~= encoding(a.items()));
        },
        Game::SvCommandInfoRemove(a) => {
            let b = match y {
                Game::SvCommandInfoRemove(b) => b,
                _ => a,
            };
            lemma_sv_command_info_remove_roundtrip(a, b, Seq::empty());
            assert(encoding(a.items()) + Seq::<u8>::empty() =~= encoding(a.items()));
        },
        Game::ClCommand(a) => {
            let b = match y {
                Game::ClCommand(b) => b,
                _ => a,
            };
            lemma_cl_command_roundtrip(a, b, Seq::empty());
            assert(encoding(a.items()) + Seq::<u8>::empty() =~= encoding(a.items()));
        },
    }
}

/// Reading a `SvMotd` takes its fields in the order they are sent: `v`,
/// what it is sent as, holds them one after the other.
pub proof fn lemma_sv_motd_field_order<'a>(x: SvMotd<'a>, v: Seq<Item>)
    requires
        x.items() == v,
    ensures
        v.len() == 1,
        v[0] == Item::Str(x.message@),
{
}

/// Reading a `SvBroadcast` takes its fields in the order they are sent: `v`,
/// what it is sent as, holds them one after the other.
pub proof fn lemma_sv_broadcast_field_order<'a>(x: SvBroadcast<'a>, v: Seq<Item>)
    requires
        x.items() == v,
    ensures
        v.len() == 1,
        v[0] == Item::Str(x.message@),
{
}

/// Reading a `SvChat` takes its fields in the order they are sent: `v`,
/// what it is sent as, holds them one after the other.
pub proof fn lemma_sv_chat_field_order<'a>(x: SvChat<'a>, v: Seq<Item>)
    requires
        x.items() == v,
    ensures
        v.len() == 4,
        v[0] == Item::Int(x.mode.value()),
        v[1] == Item::Int(x.client_id),
        v[2] == Item::Int(x.target_id),
        v[3] == Item::Str(x.message@),
{
}

/// Reading a `SvTeam` takes its fields in the order they are sent: `v`,
/// what it is sent as, holds them one after the other.
pub proof fn lemma_sv_team_field_order(x: SvTeam, v: Seq<Item>)
    requires
        x.items() == v,
    ensures
        v.len() == 4,
        v[0] == Item::Int(x.client_id),
        v[1] == Item::Int(x.team.value()),
        v[2] == Item::Int(bool_int(x.silent)),
        v[3] == Item::Int(x.cooldown_tick.0),
{
}

/// Reading a `SvKillMsg` takes its fields in the order they are sent: `v`,
/// what it is sent as, holds them one after the other.
pub proof fn lemma_sv_kill_msg_field_order(x: SvKillMsg, v: Seq<Item>)
    requires
        x.items() == v,
    ensures
        v.len() == 4,
        v[0] == Item::Int(x.killer),
        v[1] == Item::Int(x.victim),
        v[2] == Item::Int(x.weapon),
        v[3] == Item::Int(x.mode_special),
{
}

/// Reading a `SvTuneParams` takes its fields in the order they are sent: `v`,
/// what it is sent as, holds them one after the other.
pub proof fn lemma_sv_tune_params_field_order(x: SvTuneParams, v: Seq<Item>)
    requires
        x.items() == v,
    ensures
        v.len() == 32,
        v[0] == Item::Int(x.ground_control_speed.0),
        v[1] == Item::Int(x.ground_control_accel.0),
        v[2] == Item::Int(x.ground_friction.0),
        v[3] == Item::Int(x.ground_jump_impulse.0),
        v[4] == Item::Int(x.air_jump_impulse.0),
        v[5] == Item::Int(x.air_control_speed.0),
        v[6] == Item::Int(x.air_control_accel.0),
        v[7] == Item::Int(x.air_friction.0),
        v[8] == Item::Int(x.hook_length.0),
        v[9] == Item::Int(x.hook_fire_speed.0),
        v[10] == Item::Int(x.hook_drag_accel.0),
        v[11] == Item::Int(x.hook_drag_speed.0),
        v[12] == Item::Int(x.gravity.0),
        v[13] == Item::Int(x.velramp_start.0),
        v[14] == Item::Int(x.velramp_range.0),
        v[15] == Item::Int(x.velramp_curvature.0),
        v[16] == Item::Int(x.gun_curvature.0),
        v[17] == Item::Int(x.gun_speed.0),
        v[18] == Item::Int(x.gun_lifetime.0),
        v[19] == Item::Int(x.shotgun_curvature.0),
        v[20] == Item::Int(x.shotgun_speed.0),
        v[21] == Item::Int(x.shotgun_speeddiff.0),
        v[22] == Item::Int(x.shotgun_lifetime.0),
        v[23] == Item::Int(x.grenade_curvature.0),
        v[24] == Item::Int(x.grenade_speed.0),
        v[25] == Item::Int(x.grenade_lifetime.0),
        v[26] == Item::Int(x.laser_reach.0),
        v[27] == Item::Int(x.laser_bounce_delay.0),
        v[28] == Item::Int(x.laser_bounce_num.0),
        v[29] == Item::Int(x.laser_bounce_cost.0),
        v[30] == Item::Int(x.player_collision.0),
        v[31] == Item::Int(x.player_hooking.0),
{
}

/// Reading a `SvWeaponPickup` takes its fields in the order they are sent: `v`,
/// what it is sent as, holds them one after the other.
pub proof fn lemma_sv_weapon_pickup_field_order(x: SvWeaponPickup, v: Seq<Item>)
    requires
        x.items() == v,
    ensures
        v.len() == 1,
        v[0] == Item::Int(x.weapon.value()),
{
}

/// Reading a `SvEmoticon` takes its fields in the order they are sent: `v`,
/// what it is sent as, holds them one after the other.
pub proof fn lemma_sv_emoticon_field_order(x: SvEmoticon, v: Seq<Item>)
    requires
        x.items() == v,
    ensures
        v.len() == 2,
        v[0] == Item::Int(x.client_id),
        v[1] == Item::Int(x.emoticon.value()),
{
}

/// Reading a `SvVoteOptionAdd` takes its fields in the order they are sent: `v`,
/// what it is sent as, holds them one after the other.
pub proof fn lemma_sv_vote_option_add_field_order<'a>(x: SvVoteOptionAdd<'a>, v: Seq<Item>)
    requires
        x.items() == v,
    ensures
        v.len() == 1,
        v[0] == Item::Str(x.description@),
{
}

/// Reading a `SvVoteOptionRemove` takes its fields in the order they are sent: `v`,
/// what it is sent as, holds them one after the other.
pub proof fn lemma_sv_vote_option_remove_field_order<'a>(x: SvVoteOptionRemove<'a>, v: Seq<Item>)
    requires
        x.items() == v,
    ensures
        v.len() == 1,
        v[0] == Item::Str(x.description@),
{
}

/// Reading a `SvVoteSet` takes its fields in the order they are sent: `v`,
/// what it is sent as, holds them one after the other.
pub proof fn lemma_sv_vote_set_field_order<'a>(x: SvVoteSet<'a>, v: Seq<Item>)
    requires
        x.items() == v,
    ensures
        v.len() == 5,
        v[0] == Item::Int(x.client_id),
        v[1] == Item::Int(x.type_.value()),
        v[2] == Item::Int(x.timeout),
        v[3] == Item::Str(x.description@),
        v[4] == Item::Str(x.reason@),
{
}

/// Reading a `SvVoteStatus` takes its fields in the order they are sent: `v`,
/// what it is sent as, holds them one after the other.
pub proof fn lemma_sv_vote_status_field_order(x: SvVoteStatus, v: Seq<Item>)
    requires
        x.items() == v,
    ensures
        v.len() == 4,
        v[0] == Item::Int(x.yes),
        v[1] == Item::Int(x.no),
        v[2] == Item::Int(x.pass),
        v[3] == Item::Int(x.total),
{
}

/// Reading a `SvServerSettings` takes its fields in the order they are sent: `v`,
/// what it is sent as, holds them one after the other.
pub proof fn lemma_sv_server_settings_field_order(x: SvServerSettings, v: Seq<Item>)
    requires
        x.items() == v,
    ensures
        v.len() == 6,
        v[0] == Item::Int(bool_int(x.kick_vote)),
        v[1] == Item::Int(x.kick_min),
        v[2] == Item::Int(bool_int(x.spec_vote)),
        v[3] == Item::Int(bool_int(x.team_lock)),
        v[4] == Item::Int(bool_int(x.team_balance)),
        v[5] == Item::Int(x.player_slots),
{
}

/// Reading a `SvClientInfo` takes its fields in the order they are sent: `v`,
/// what it is sent as, holds them one after the other.
pub proof fn lemma_sv_client_info_field_order<'a>(x: SvClientInfo<'a>, v: Seq<Item>)
    requires
        x.items() == v,
    ensures
        v.len() == 25,
        v[0] == Item::Int(x.client_id),
        v[1] == Item::Int(bool_int(x.local)),
        v[2] == Item::Int(x.team.value()),
        v[3] == Item::Str(x.name@),
        v[4] == Item::Str(x.clan@),
        v[5] == Item::Int(x.country),
        v[6] == Item::Str(x.skin_part_names[0]@),
        v[7] == Item::Str(x.skin_part_names[1]@),
        v[8] == Item::Str(x.skin_part_names[2]@),
        v[9] == Item::Str(x.skin_part_names[3]@),
        v[10] == Item::Str(x.skin_part_names[4]@),
        v[11] == Item::Str(x.skin_part_names[5]@),
        v[12] == Item::Int(bool_int(x.use_custom_colors[0])),
        v[13] == Item::Int(bool_int(x.use_custom_colors[1])),
        v[14] == Item::Int(bool_int(x.use_custom_colors[2])),
        v[15] == Item::Int(bool_int(x.use_custom_colors[3])),
        v[16] == Item::Int(bool_int(x.use_custom_colors[4])),
        v[17] == Item::Int(bool_int(x.use_custom_colors[5])),
        v[18] == Item::Int(x.skin_part_colors[0]),
        v[19] == Item::Int(x.skin_part_colors[1]),
        v[20] == Item::Int(x.skin_part_colors[2]),
        v[21] == Item::Int(x.skin_part_colors[3]),
        v[22] == Item::Int(x.skin_part_colors[4]),
        v[23] == Item::Int(x.skin_part_colors[5]),
        v[24] == Item::Int(bool_int(x.silent)),
{
}

/// Reading a `SvGameInfo` takes its fields in the order they are sent: `v`,
/// what it is sent as, holds them one after the other.
pub proof fn lemma_sv_game_info_field_order(x: SvGameInfo, v: Seq<Item>)
    requires
        x.items() == v,
    ensures
        v.len() == 5,
        v[0] == Item::Int(x.game_flags),
        v[1] == Item::Int(x.score_limit),
        v[2] == Item::Int(x.time_limit),
        v[3] == Item::Int(x.match_num),
        v[4] == Item::Int(x.match_current),
{
}

/// Reading a `SvClientDrop` takes its fields in the order they are sent: `v`,
/// what it is sent as, holds them one after the other.
pub proof fn lemma_sv_client_drop_field_order<'a>(x: SvClientDrop<'a>, v: Seq<Item>)
    requires
        x.items() == v,
    ensures
        v.len() == 3,
        v[0] == Item::Int(x.client_id),
        v[1] == Item::Str(x.reason@),
        v[2] == Item::Int(bool_int(x.silent)),
{
}

/// Reading a `DeClientEnter` takes its fields in the order they are sent: `v`,
/// what it is sent as, holds them one after the other.
pub proof fn lemma_de_client_enter_field_order<'a>(x: DeClientEnter<'a>, v: Seq<Item>)
    requires
        x.items() == v,
    ensures
        v.len() == 3,
        v[0] == Item::Str(x.name@),
        v[1] == Item::Int(x.client_id),
        v[2] == Item::Int(x.team.value()),
{
}

/// Reading a `DeClientLeave` takes its fields in the order they are sent: `v`,
/// what it is sent as, holds them one after the other.
pub proof fn lemma_de_client_leave_field_order<'a>(x: DeClientLeave<'a>, v: Seq<Item>)
    requires
        x.items() == v,
    ensures
        v.len() == 3,
        v[0] == Item::Str(x.name@),
        v[1] == Item::Int(x.client_id),
        v[2] == Item::Str(x.reason@),
{
}

/// Reading a `ClSay` takes its fields in the order they are sent: `v`,
/// what it is sent as, holds them one after the other.
pub proof fn lemma_cl_say_field_order<'a>(x: ClSay<'a>, v: Seq<Item>)
    requires
        x.items() == v,
    ensures
        v.len() == 3,
        v[0] == Item::Int(x.mode.value()),
        v[1] == Item::Int(x.target),
        v[2] == Item::Str(x.message@),
{
}

/// Reading a `ClSetTeam` takes its fields in the order they are sent: `v`,
/// what it is sent as, holds them one after the other.
pub proof fn lemma_cl_set_team_field_order(x: ClSetTeam, v: Seq<Item>)
    requires
        x.items() == v,
    ensures
        v.len() == 1,
        v[0] == Item::Int(x.team.value()),
{
}

/// Reading a `ClSetSpectatorMode` takes its fields in the order they are sent: `v`,
/// what it is sent as, holds them one after the other.
pub proof fn lemma_cl_set_spectator_mode_field_order(x: ClSetSpectatorMode, v: Seq<Item>)
    requires
        x.items() == v,
    ensures
        v.len() == 2,
        v[0] == Item::Int(x.spec_mode.value()),
        v[1] == Item::Int(x.spectator_id),
{
}

/// Reading a `ClStartInfo` takes its fields in the order they are sent: `v`,
/// what it is sent as, holds them one after the other.
pub proof fn lemma_cl_start_info_field_order<'a>(x: ClStartInfo<'a>, v: Seq<Item>)
    requires
        x.items() == v,
    ensures
        v.len() == 21,
        v[0] == Item::Str(x.name@),
        v[1] == Item::Str(x.clan@),
        v[2] == Item::Int(x.country),
        v[3] == Item::Str(x.skin_part_names[0]@),
        v[4] == Item::Str(x.skin_part_names[1]@),
        v[5] == Item::Str(x.skin_part_names[2]@),
        v[6] == Item::Str(x.skin_part_names[3]@),
        v[7] == Item::Str(x.skin_part_names[4]@),
        v[8] == Item::Str(x.skin_part_names[5]@),
        v[9] == Item::Int(bool_int(x.use_custom_colors[0])),
        v[10] == Item::Int(bool_int(x.use_custom_colors[1])),
        v[11] == Item::Int(bool_int(x.use_custom_colors[2])),
        v[12] == Item::Int(bool_int(x.use_custom_colors[3])),
        v[13] == Item::Int(bool_int(x.use_custom_colors[4])),
        v[14] == Item::Int(bool_int(x.use_custom_colors[5])),
        v[15] == Item::Int(x.skin_part_colors[0]),
        v[16] == Item::Int(x.skin_part_colors[1]),
        v[17] == Item::Int(x.skin_part_colors[2]),
        v[18] == Item::Int(x.skin_part_colors[3]),
        v[19] == Item::Int(x.skin_part_colors[4]),
        v[20] == Item::Int(x.skin_part_colors[5]),
{
}

/// Reading a `ClEmoticon` takes its fields in the order they are sent: `v`,
/// what it is sent as, holds them one after the other.
pub proof fn lemma_cl_emoticon_field_order(x: ClEmoticon, v: Seq<Item>)
    requires
        x.items() == v,
    ensures
        v.len() == 1,
        v[0] == Item::Int(x.emoticon.value()),
{
}

/// Reading a `ClVote` takes its fields in the order they are sent: `v`,
/// what it is sent as, holds them one after the other.
pub proof fn lemma_cl_vote_field_order(x: ClVote, v: Seq<Item>)
    requires
        x.items() == v,
    ensures
        v.len() == 1,
        v[0] == Item::Int(x.vote),
{
}

/// Reading a `ClCallVote` takes its fields in the order they are sent: `v`,
/// what it is sent as, holds them one after the other.
pub proof fn lemma_cl_call_vote_field_order<'a>(x: ClCallVote<'a>, v: Seq<Item>)
    requires
        x.items() == v,
    ensures
        v.len() == 4,
        v[0] == Item::Str(x.type_@),
        v[1] == Item::Str(x.value@),
        v[2] == Item::Str(x.reason@),
        v[3] == Item::Int(bool_int(x.force)),
{
}

/// Reading a `SvSkinChange` takes its fields in the order they are sent: `v`,
/// what it is sent as, holds them one after the other.
pub proof fn lemma_sv_skin_change_field_order<'a>(x: SvSkinChange<'a>, v: Seq<Item>)
    requires
        x.items() == v,
    ensures
        v.len() == 19,
        v[0] == Item::Int(x.client_id),
        v[1] == Item::Str(x.skin_part_names[0]@),
        v[2] == Item::Str(x.skin_part_names[1]@),
        v[3] == Item::Str(x.skin_part_names[2]@),
        v[4] == Item::Str(x.skin_part_names[3]@),
        v[5] == Item::Str(x.skin_part_names[4]@),
        v[6] == Item::Str(x.skin_part_names[5]@),
        v[7] == Item::Int(bool_int(x.use_custom_colors[0])),
        v[8] == Item::Int(bool_int(x.use_custom_colors[1])),
        v[9] == Item::Int(bool_int(x.use_custom_colors[2])),
        v[10] == Item::Int(bool_int(x.use_custom_colors[3])),
        v[11] == Item::Int(bool_int(x.use_custom_colors[4])),
        v[12] == Item::Int(bool_int(x.use_custom_colors[5])),
        v[13] == Item::Int(x.skin_part_colors[0]),
        v[14] == Item::Int(x.skin_part_colors[1]),
        v[15] == Item::Int(x.skin_part_colors[2]),
        v[16] == Item::Int(x.skin_part_colors[3]),
        v[17] == Item::Int(x.skin_part_colors[4]),
        v[18] == Item::Int(x.skin_part_colors[5]),
{
}

/// Reading a `ClSkinChange` takes its fields in the order they are sent: `v`,
/// what it is sent as, holds them one after the other.
pub proof fn lemma_cl_skin_change_field_order<'a>(x: ClSkinChange<'a>, v: Seq<Item>)
    requires
        x.items() == v,
    ensures
        v.len() == 18,
        v[0] == Item::Str(x.skin_part_names[0]@),
        v[1] == Item::Str(x.skin_part_names[1]@),
        v[2] == Item::Str(x.skin_part_names[2]@),
        v[3] == Item::Str(x.skin_part_names[3]@),
        v[4] == Item::Str(x.skin_part_names[4]@),
        v[5] == Item::Str(x.skin_part_names[5]@),
        v[6] == Item::Int(bool_int(x.use_custom_colors[0])),
        v[7] == Item::Int(bool_int(x.use_custom_colors[1])),
        v[8] == Item::Int(bool_int(x.use_custom_colors[2])),
        v[9] == Item::Int(bool_int(x.use_custom_colors[3])),
        v[10] == Item::Int(bool_int(x.use_custom_colors[4])),
        v[11] == Item::Int(bool_int(x.use_custom_colors[5])),
        v[12] == Item::Int(x.skin_part_colors[0]),
        v[13] == Item::Int(x.skin_part_colors[1]),
        v[14] == Item::Int(x.skin_part_colors[2]),
        v[15] == Item::Int(x.skin_part_colors[3]),
        v[16] == Item::Int(x.skin_part_colors[4]),
        v[17] == Item::Int(x.skin_part_colors[5]),
{
}

/// Reading a `SvRaceFinish` takes its fields in the order they are sent: `v`,
/// what it is sent as, holds them one after the other.
pub proof fn lemma_sv_race_finish_field_order(x: SvRaceFinish, v: Seq<Item>)
    requires
        x.items() == v,
    ensures
        v.len() == 5,
        v[0] == Item::Int(x.client_id),
        v[1] == Item::Int(x.time),
        v[2] == Item::Int(x.diff),
        v[3] == Item::Int(bool_int(x.record_personal)),
        v[4] == Item::Int(bool_int(x.record_server)),
{
}

/// Reading a `SvCheckpoint` takes its fields in the order they are sent: `v`,
/// what it is sent as, holds them one after the other.
pub proof fn lemma_sv_checkpoint_field_order(x: SvCheckpoint, v: Seq<Item>)
    requires
        x.items() == v,
    ensures
        v.len() == 1,
        v[0] == Item::Int(x.diff),
{
}

/// Reading a `SvCommandInfo` takes its fields in the order they are sent: `v`,
/// what it is sent as, holds them one after the other.
pub proof fn lemma_sv_command_info_field_order<'a>(x: SvCommandInfo<'a>, v: Seq<Item>)
    requires
        x.items() == v,
    ensures
        v.len() == 3,
        v[0] == Item::Str(x.name@),
        v[1] == Item::Str(x.args_format@),
        v[2] == Item::Str(x.help_text@),
{
}

/// Reading a `SvCommandInfoRemove` takes its fields in the order they are sent: `v`,
/// what it is sent as, holds them one after the other.
pub proof fn lemma_sv_command_info_remove_field_order<'a>(x: SvCommandInfoRemove<'a>, v: Seq<Item>)
    requires
        x.items() == v,
    ensures
        v.len() == 1,
        v[0] == Item::Str(x.name@),
{
}

/// Reading a `ClCommand` takes its fields in the order they are sent: `v`,
/// what it is sent as, holds them one after the other.
pub proof fn lemma_cl_command_field_order<'a>(x: ClCommand<'a>, v: Seq<Item>)
    requires
        x.items() == v,
    ensures
        v.len() == 2,
        v[0] == Item::Str(x.name@),
        v[1] == Item::Str(x.arguments@),
{
}

} // verus!
