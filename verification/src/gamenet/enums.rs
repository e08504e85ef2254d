//! The enumerations and constants of the Teeworlds 0.7 game protocol.
use vstd::prelude::*;
use crate::packer::IntOutOfRange;

verus! {

pub const MAX_CLIENTS: i32 = 64;
pub const WEAPON_GAME: i32 = -3;
pub const WEAPON_SELF: i32 = -2;
pub const WEAPON_WORLD: i32 = -1;
pub const FLAG_MISSING: i32 = -3;
pub const FLAG_ATSTAND: i32 = -2;
pub const FLAG_TAKEN: i32 = -1;
pub const VERSION: &'static str = "0.7 802f1be60a05665f";
pub const CLIENT_VERSION: i32 = 1797;
pub const CL_CALL_VOTE_TYPE_OPTION: &'static str = "option";
pub const CL_CALL_VOTE_TYPE_KICK: &'static str = "kick";
pub const CL_CALL_VOTE_TYPE_SPEC: &'static str = "spec";
pub const VOTE_CHOICE_NO: i32 = -1;
pub const VOTE_CHOICE_PASS: i32 = 0;
pub const VOTE_CHOICE_YES: i32 = 1;
pub const PICKUP_HEALTH: i32 = 0;
pub const PICKUP_ARMOR: i32 = 1;
pub const PICKUP_GRENADE: i32 = 2;
pub const PICKUP_SHOTGUN: i32 = 3;
pub const PICKUP_LASER: i32 = 4;
pub const PICKUP_NINJA: i32 = 5;
pub const PICKUP_GUN: i32 = 6;
pub const PICKUP_HAMMER: i32 = 7;

#[derive(Clone, Copy, Debug, PartialEq, Eq, Structural, PartialOrd, Ord, Hash)]
pub enum Pickup {
    Health,
    Armor,
    Grenade,
    Shotgun,
    Laser,
    Ninja,
    Gun,
    Hammer,
}

pub const EMOTE_NORMAL: i32 = 0;
pub const EMOTE_PAIN: i32 = 1;
pub const EMOTE_HAPPY: i32 = 2;
pub const EMOTE_SURPRISE: i32 = 3;
pub const EMOTE_ANGRY: i32 = 4;
pub const EMOTE_BLINK: i32 = 5;

#[derive(Clone, Copy, Debug, PartialEq, Eq, Structural, PartialOrd, Ord, Hash)]
pub enum Emote {
    Normal,
    Pain,
    Happy,
    Surprise,
    Angry,
    Blink,
}

pub const EMOTICON_OOP: i32 = 0;
pub const EMOTICON_EXCLAMATION: i32 = 1;
pub const EMOTICON_HEARTS: i32 = 2;
pub const EMOTICON_DROP: i32 = 3;
pub const EMOTICON_DOTDOT: i32 = 4;
pub const EMOTICON_MUSIC: i32 = 5;
pub const EMOTICON_SORRY: i32 = 6;
pub const EMOTICON_GHOST: i32 = 7;
pub const EMOTICON_SUSHI: i32 = 8;
pub const EMOTICON_SPLATTEE: i32 = 9;
pub const EMOTICON_DEVILTEE: i32 = 10;
pub const EMOTICON_ZOMG: i32 = 11;
pub const EMOTICON_ZZZ: i32 = 12;
pub const EMOTICON_WTF: i32 = 13;
pub const EMOTICON_EYES: i32 = 14;
pub const EMOTICON_QUESTION: i32 = 15;

#[allow(non_camel_case_types)]
#[derive(Clone, Copy, Debug, PartialEq, Eq, Structural, PartialOrd, Ord, Hash)]
pub enum Emoticon {
    Oop,
    Exclamation,
    Hearts,
    Drop,
    Dotdot,
    Music,
    Sorry,
    Ghost_,
    Sushi,
    Splattee,
    Deviltee,
    Zomg,
    Zzz,
    Wtf,
    Eyes,
    Question,
}

pub const VOTE_UNKNOWN: i32 = 0;
pub const VOTE_START_OP: i32 = 1;
pub const VOTE_START_KICK: i32 = 2;
pub const VOTE_START_SPEC: i32 = 3;
pub const VOTE_END_ABORT: i32 = 4;
pub const VOTE_END_PASS: i32 = 5;
pub const VOTE_END_FAIL: i32 = 6;

#[derive(Clone, Copy, Debug, PartialEq, Eq, Structural, PartialOrd, Ord, Hash)]
pub enum Vote {
    Unknown,
    StartOp,
    StartKick,
    StartSpec,
    EndAbort,
    EndPass,
    EndFail,
}

pub const CHAT_NONE: i32 = 0;
pub const CHAT_ALL: i32 = 1;
pub const CHAT_TEAM: i32 = 2;
pub const CHAT_WHISPER: i32 = 3;

#[allow(non_camel_case_types)]
#[derive(Clone, Copy, Debug, PartialEq, Eq, Structural, PartialOrd, Ord, Hash)]
pub enum Chat {
    None_,
    All,
    Team,
    Whisper,
}

pub const GAMEMSG_TEAM_SWAP: i32 = 0;
pub const GAMEMSG_SPEC_INVALID_ID: i32 = 1;
pub const GAMEMSG_TEAM_SHUFFLE: i32 = 2;
pub const GAMEMSG_TEAM_BALANCE: i32 = 3;
pub const GAMEMSG_CTF_DROP: i32 = 4;
pub const GAMEMSG_CTF_RETURN: i32 = 5;
pub const GAMEMSG_TEAM_ALL: i32 = 6;
pub const GAMEMSG_TEAM_BALANCE_VICTIM: i32 = 7;
pub const GAMEMSG_CTF_GRAB: i32 = 8;
pub const GAMEMSG_CTF_CAPTURE: i32 = 9;
pub const GAMEMSG_GAME_PAUSED: i32 = 10;

#[derive(Clone, Copy, Debug, PartialEq, Eq, Structural, PartialOrd, Ord, Hash)]
pub enum Gamemsg {
    TeamSwap,
    SpecInvalidId,
    TeamShuffle,
    TeamBalance,
    CtfDrop,
    CtfReturn,
    TeamAll,
    TeamBalanceVictim,
    CtfGrab,
    CtfCapture,
    GamePaused,
}

pub const WEAPON_HAMMER: i32 = 0;
pub const WEAPON_PISTOL: i32 = 1;
pub const WEAPON_SHOTGUN: i32 = 2;
pub const WEAPON_GRENADE: i32 = 3;
pub const WEAPON_RIFLE: i32 = 4;
pub const WEAPON_NINJA: i32 = 5;

#[derive(Clone, Copy, Debug, PartialEq, Eq, Structural, PartialOrd, Ord, Hash)]
pub enum Weapon {
    Hammer,
    Pistol,
    Shotgun,
    Grenade,
    Rifle,
    Ninja,
}

pub const TEAM_SPECTATORS: i32 = -1;
pub const TEAM_RED: i32 = 0;
pub const TEAM_BLUE: i32 = 1;

#[derive(Clone, Copy, Debug, PartialEq, Eq, Structural, PartialOrd, Ord, Hash)]
pub enum Team {
    Spectators,
    Red,
    Blue,
}

pub const SOUND_GUN_FIRE: i32 = 0;
pub const SOUND_SHOTGUN_FIRE: i32 = 1;
pub const SOUND_GRENADE_FIRE: i32 = 2;
pub const SOUND_HAMMER_FIRE: i32 = 3;
pub const SOUND_HAMMER_HIT: i32 = 4;
pub const SOUND_NINJA_FIRE: i32 = 5;
pub const SOUND_GRENADE_EXPLODE: i32 = 6;
pub const SOUND_NINJA_HIT: i32 = 7;
pub const SOUND_RIFLE_FIRE: i32 = 8;
pub const SOUND_RIFLE_BOUNCE: i32 = 9;
pub const SOUND_WEAPON_SWITCH: i32 = 10;
pub const SOUND_PLAYER_PAIN_SHORT: i32 = 11;
pub const SOUND_PLAYER_PAIN_LONG: i32 = 12;
pub const SOUND_BODY_LAND: i32 = 13;
pub const SOUND_PLAYER_AIRJUMP: i32 = 14;
pub const SOUND_PLAYER_JUMP: i32 = 15;
pub const SOUND_PLAYER_DIE: i32 = 16;
pub const SOUND_PLAYER_SPAWN: i32 = 17;
pub const SOUND_PLAYER_SKID: i32 = 18;
pub const SOUND_TEE_CRY: i32 = 19;
pub const SOUND_HOOK_LOOP: i32 = 20;
pub const SOUND_HOOK_ATTACH_GROUND: i32 = 21;
pub const SOUND_HOOK_ATTACH_PLAYER: i32 = 22;
pub const SOUND_HOOK_NOATTACH: i32 = 23;
pub const SOUND_PICKUP_HEALTH: i32 = 24;
pub const SOUND_PICKUP_ARMOR: i32 = 25;
pub const SOUND_PICKUP_GRENADE: i32 = 26;
pub const SOUND_PICKUP_SHOTGUN: i32 = 27;
pub const SOUND_PICKUP_NINJA: i32 = 28;
pub const SOUND_WEAPON_SPAWN: i32 = 29;
pub const SOUND_WEAPON_NOAMMO: i32 = 30;
pub const SOUND_HIT: i32 = 31;
pub const SOUND_CHAT_SERVER: i32 = 32;
pub const SOUND_CHAT_CLIENT: i32 = 33;
pub const SOUND_CHAT_HIGHLIGHT: i32 = 34;
pub const SOUND_CTF_DROP: i32 = 35;
pub const SOUND_CTF_RETURN: i32 = 36;
pub const SOUND_CTF_GRAB_PL: i32 = 37;
pub const SOUND_CTF_GRAB_EN: i32 = 38;
pub const SOUND_CTF_CAPTURE: i32 = 39;
pub const SOUND_MENU: i32 = 40;

#[derive(Clone, Copy, Debug, PartialEq, Eq, Structural, PartialOrd, Ord, Hash)]
pub enum Sound {
    GunFire,
    ShotgunFire,
    GrenadeFire,
    HammerFire,
    HammerHit,
    NinjaFire,
    GrenadeExplode,
    NinjaHit,
    RifleFire,
    RifleBounce,
    WeaponSwitch,
    PlayerPainShort,
    PlayerPainLong,
    BodyLand,
    PlayerAirjump,
    PlayerJump,
    PlayerDie,
    PlayerSpawn,
    PlayerSkid,
    TeeCry,
    HookLoop,
    HookAttachGround,
    HookAttachPlayer,
    HookNoattach,
    PickupHealth,
    PickupArmor,
    PickupGrenade,
    PickupShotgun,
    PickupNinja,
    WeaponSpawn,
    WeaponNoammo,
    Hit,
    ChatServer,
    ChatClient,
    ChatHighlight,
    CtfDrop,
    CtfReturn,
    CtfGrabPl,
    CtfGrabEn,
    CtfCapture,
    Menu,
}

pub const SPEC_FREEVIEW: i32 = 0;
pub const SPEC_PLAYER: i32 = 1;
pub const SPEC_FLAGRED: i32 = 2;
pub const SPEC_FLAGBLUE: i32 = 3;

#[derive(Clone, Copy, Debug, PartialEq, Eq, Structural, PartialOrd, Ord, Hash)]
pub enum Spec {
    Freeview,
    Player,
    Flagred,
    Flagblue,
}

pub const SKINPART_BODY: i32 = 0;
pub const SKINPART_MARKING: i32 = 1;
pub const SKINPART_DECORATION: i32 = 2;
pub const SKINPART_HANDS: i32 = 3;
pub const SKINPART_FEET: i32 = 4;
pub const SKINPART_EYES: i32 = 5;

#[derive(Clone, Copy, Debug, PartialEq, Eq, Structural, PartialOrd, Ord, Hash)]
pub enum Skinpart {
    Body,
    Marking,
    Decoration,
    Hands,
    Feet,
    Eyes,
}

impl Pickup {
    /// The number that stands for the variant on the wire.
    pub open spec fn value(self) -> i32 {
        match self {
            Pickup::Health => PICKUP_HEALTH,
            Pickup::Armor => PICKUP_ARMOR,
            Pickup::Grenade => PICKUP_GRENADE,
            Pickup::Shotgun => PICKUP_SHOTGUN,
            Pickup::Laser => PICKUP_LASER,
            Pickup::Ninja => PICKUP_NINJA,
            Pickup::Gun => PICKUP_GUN,
            Pickup::Hammer => PICKUP_HAMMER,
        }
    }

    /// The variant that the number `i` stands for, if any.
    pub open spec fn from_value(i: i32) -> Option<Pickup> {
        if i == PICKUP_HEALTH {
            Some(Pickup::Health)
        } else if i == PICKUP_ARMOR {
            Some(Pickup::Armor)
        } else if i == PICKUP_GRENADE {
            Some(Pickup::Grenade)
        } else if i == PICKUP_SHOTGUN {
            Some(Pickup::Shotgun)
        } else if i == PICKUP_LASER {
            Some(Pickup::Laser)
        } else if i == PICKUP_NINJA {
            Some(Pickup::Ninja)
        } else if i == PICKUP_GUN {
            Some(Pickup::Gun)
        } else if i == PICKUP_HAMMER {
            Some(Pickup::Hammer)
        } else {
            None
        }
    }

    pub fn from_i32(i: i32) -> (r: Result<Pickup, IntOutOfRange>)
        ensures
            r == (match Pickup::from_value(i) {
                Some(e) => Ok(e),
                None => Err(IntOutOfRange),
            }),
    {
        if i == PICKUP_HEALTH {
            Ok(Pickup::Health)
        } else if i == PICKUP_ARMOR {
            Ok(Pickup::Armor)
        } else if i == PICKUP_GRENADE {
            Ok(Pickup::Grenade)
        } else if i == PICKUP_SHOTGUN {
            Ok(Pickup::Shotgun)
        } else if i == PICKUP_LASER {
            Ok(Pickup::Laser)
        } else if i == PICKUP_NINJA {
            Ok(Pickup::Ninja)
        } else if i == PICKUP_GUN {
            Ok(Pickup::Gun)
        } else if i == PICKUP_HAMMER {
            Ok(Pickup::Hammer)
        } else {
            Err(IntOutOfRange)
        }
    }

    pub fn to_i32(self) -> (r: i32)
        ensures
            r == self.value(),
    {
        match self {
            Pickup::Health => PICKUP_HEALTH,
            Pickup::Armor => PICKUP_ARMOR,
            Pickup::Grenade => PICKUP_GRENADE,
            Pickup::Shotgun => PICKUP_SHOTGUN,
            Pickup::Laser => PICKUP_LASER,
            Pickup::Ninja => PICKUP_NINJA,
            Pickup::Gun => PICKUP_GUN,
            Pickup::Hammer => PICKUP_HAMMER,
        }
    }
}

/// Each `Pickup` has a number of its own, and reading that number gives it
/// back.
pub proof fn lemma_pickup_values(e: Pickup, i: i32)
    ensures
        Pickup::from_value(e.value()) == Some(e),
        Pickup::from_value(i) matches Some(f) ==> f.value() == i,
{
}

impl Emote {
    /// The number that stands for the variant on the wire.
    pub open spec fn value(self) -> i32 {
        match self {
            Emote::Normal => EMOTE_NORMAL,
            Emote::Pain => EMOTE_PAIN,
            Emote::Happy => EMOTE_HAPPY,
            Emote::Surprise => EMOTE_SURPRISE,
            Emote::Angry => EMOTE_ANGRY,
            Emote::Blink => EMOTE_BLINK,
        }
    }

    /// The variant that the number `i` stands for, if any.
    pub open spec fn from_value(i: i32) -> Option<Emote> {
        if i == EMOTE_NORMAL {
            Some(Emote::Normal)
        } else if i == EMOTE_PAIN {
            Some(Emote::Pain)
        } else if i == EMOTE_HAPPY {
            Some(Emote::Happy)
        } else if i == EMOTE_SURPRISE {
            Some(Emote::Surprise)
        } else if i == EMOTE_ANGRY {
            Some(Emote::Angry)
        } else if i == EMOTE_BLINK {
            Some(Emote::Blink)
        } else {
            None
        }
    }

    pub fn from_i32(i: i32) -> (r: Result<Emote, IntOutOfRange>)
        ensures
            r == (match Emote::from_value(i) {
                Some(e) => Ok(e),
                None => Err(IntOutOfRange),
            }),
    {
        if i == EMOTE_NORMAL {
            Ok(Emote::Normal)
        } else if i == EMOTE_PAIN {
            Ok(Emote::Pain)
        } else if i == EMOTE_HAPPY {
            Ok(Emote::Happy)
        } else if i == EMOTE_SURPRISE {
            Ok(Emote::Surprise)
        } else if i == EMOTE_ANGRY {
            Ok(Emote::Angry)
        } else if i == EMOTE_BLINK {
            Ok(Emote::Blink)
        } else {
            Err(IntOutOfRange)
        }
    }

    pub fn to_i32(self) -> (r: i32)
        ensures
            r == self.value(),
    {
        match self {
            Emote::Normal => EMOTE_NORMAL,
            Emote::Pain => EMOTE_PAIN,
            Emote::Happy => EMOTE_HAPPY,
            Emote::Surprise => EMOTE_SURPRISE,
            Emote::Angry => EMOTE_ANGRY,
            Emote::Blink => EMOTE_BLINK,
        }
    }
}

/// Each `Emote` has a number of its own, and reading that number gives it
/// back.
pub proof fn lemma_emote_values(e: Emote, i: i32)
    ensures
        Emote::from_value(e.value()) == Some(e),
        Emote::from_value(i) matches Some(f) ==> f.value() == i,
{
}

impl Emoticon {
    /// The number that stands for the variant on the wire.
    pub open spec fn value(self) -> i32 {
        match self {
            Emoticon::Oop => EMOTICON_OOP,
            Emoticon::Exclamation => EMOTICON_EXCLAMATION,
            Emoticon::Hearts => EMOTICON_HEARTS,
            Emoticon::Drop => EMOTICON_DROP,
            Emoticon::Dotdot => EMOTICON_DOTDOT,
            Emoticon::Music => EMOTICON_MUSIC,
            Emoticon::Sorry => EMOTICON_SORRY,
            Emoticon::Ghost_ => EMOTICON_GHOST,
            Emoticon::Sushi => EMOTICON_SUSHI,
            Emoticon::Splattee => EMOTICON_SPLATTEE,
            Emoticon::Deviltee => EMOTICON_DEVILTEE,
            Emoticon::Zomg => EMOTICON_ZOMG,
            Emoticon::Zzz => EMOTICON_ZZZ,
            Emoticon::Wtf => EMOTICON_WTF,
            Emoticon::Eyes => EMOTICON_EYES,
            Emoticon::Question => EMOTICON_QUESTION,
        }
    }

    /// The variant that the number `i` stands for, if any.
    pub open spec fn from_value(i: i32) -> Option<Emoticon> {
        if i == EMOTICON_OOP {
            Some(Emoticon::Oop)
        } else if i == EMOTICON_EXCLAMATION {
            Some(Emoticon::Exclamation)
        } else if i == EMOTICON_HEARTS {
            Some(Emoticon::Hearts)
        } else if i == EMOTICON_DROP {
            Some(Emoticon::Drop)
        } else if i == EMOTICON_DOTDOT {
            Some(Emoticon::Dotdot)
        } else if i == EMOTICON_MUSIC {
            Some(Emoticon::Music)
        } else if i == EMOTICON_SORRY {
            Some(Emoticon::Sorry)
        } else if i == EMOTICON_GHOST {
            Some(Emoticon::Ghost_)
        } else if i == EMOTICON_SUSHI {
            Some(Emoticon::Sushi)
        } else if i == EMOTICON_SPLATTEE {
            Some(Emoticon::Splattee)
        } else if i == EMOTICON_DEVILTEE {
            Some(Emoticon::Deviltee)
        } else if i == EMOTICON_ZOMG {
            Some(Emoticon::Zomg)
        } else if i == EMOTICON_ZZZ {
            Some(Emoticon::Zzz)
        } else if i == EMOTICON_WTF {
            Some(Emoticon::Wtf)
        } else if i == EMOTICON_EYES {
            Some(Emoticon::Eyes)
        } else if i == EMOTICON_QUESTION {
            Some(Emoticon::Question)
        } else {
            None
        }
    }

    pub fn from_i32(i: i32) -> (r: Result<Emoticon, IntOutOfRange>)
        ensures
            r == (match Emoticon::from_value(i) {
                Some(e) => Ok(e),
                None => Err(IntOutOfRange),
            }),
    {
        if i == EMOTICON_OOP {
            Ok(Emoticon::Oop)
        } else if i == EMOTICON_EXCLAMATION {
            Ok(Emoticon::Exclamation)
        } else if i == EMOTICON_HEARTS {
            Ok(Emoticon::Hearts)
        } else if i == EMOTICON_DROP {
            Ok(Emoticon::Drop)
        } else if i == EMOTICON_DOTDOT {
            Ok(Emoticon::Dotdot)
        } else if i == EMOTICON_MUSIC {
            Ok(Emoticon::Music)
        } else if i == EMOTICON_SORRY {
            Ok(Emoticon::Sorry)
        } else if i == EMOTICON_GHOST {
            Ok(Emoticon::Ghost_)
        } else if i == EMOTICON_SUSHI {
            Ok(Emoticon::Sushi)
        } else if i == EMOTICON_SPLATTEE {
            Ok(Emoticon::Splattee)
        } else if i == EMOTICON_DEVILTEE {
            Ok(Emoticon::Deviltee)
        } else if i == EMOTICON_ZOMG {
            Ok(Emoticon::Zomg)
        } else if i == EMOTICON_ZZZ {
            Ok(Emoticon::Zzz)
        } else if i == EMOTICON_WTF {
            Ok(Emoticon::Wtf)
        } else if i == EMOTICON_EYES {
            Ok(Emoticon::Eyes)
        } else if i == EMOTICON_QUESTION {
            Ok(Emoticon::Question)
        } else {
            Err(IntOutOfRange)
        }
    }

    pub fn to_i32(self) -> (r: i32)
        ensures
            r == self.value(),
    {
        match self {
            Emoticon::Oop => EMOTICON_OOP,
            Emoticon::Exclamation => EMOTICON_EXCLAMATION,
            Emoticon::Hearts => EMOTICON_HEARTS,
            Emoticon::Drop => EMOTICON_DROP,
            Emoticon::Dotdot => EMOTICON_DOTDOT,
            Emoticon::Music => EMOTICON_MUSIC,
            Emoticon::Sorry => EMOTICON_SORRY,
            Emoticon::Ghost_ => EMOTICON_GHOST,
            Emoticon::Sushi => EMOTICON_SUSHI,
            Emoticon::Splattee => EMOTICON_SPLATTEE,
            Emoticon::Deviltee => EMOTICON_DEVILTEE,
            Emoticon::Zomg => EMOTICON_ZOMG,
            Emoticon::Zzz => EMOTICON_ZZZ,
            Emoticon::Wtf => EMOTICON_WTF,
            Emoticon::Eyes => EMOTICON_EYES,
            Emoticon::Question => EMOTICON_QUESTION,
        }
    }
}

/// Each `Emoticon` has a number of its own, and reading that number gives it
/// back.
pub proof fn lemma_emoticon_values(e: Emoticon, i: i32)
    ensures
        Emoticon::from_value(e.value()) == Some(e),
        Emoticon::from_value(i) matches Some(f) ==> f.value() == i,
{
}

impl Vote {
    /// The number that stands for the variant on the wire.
    pub open spec fn value(self) -> i32 {
        match self {
            Vote::Unknown => VOTE_UNKNOWN,
            Vote::StartOp => VOTE_START_OP,
            Vote::StartKick => VOTE_START_KICK,
            Vote::StartSpec => VOTE_START_SPEC,
            Vote::EndAbort => VOTE_END_ABORT,
            Vote::EndPass => VOTE_END_PASS,
            Vote::EndFail => VOTE_END_FAIL,
        }
    }

    /// The variant that the number `i` stands for, if any.
    pub open spec fn from_value(i: i32) -> Option<Vote> {
        if i == VOTE_UNKNOWN {
            Some(Vote::Unknown)
        } else if i == VOTE_START_OP {
            Some(Vote::StartOp)
        } else if i == VOTE_START_KICK {
            Some(Vote::StartKick)
        } else if i == VOTE_START_SPEC {
            Some(Vote::StartSpec)
        } else if i == VOTE_END_ABORT {
            Some(Vote::EndAbort)
        } else if i == VOTE_END_PASS {
            Some(Vote::EndPass)
        } else if i == VOTE_END_FAIL {
            Some(Vote::EndFail)
        } else {
            None
        }
    }

    pub fn from_i32(i: i32) -> (r: Result<Vote, IntOutOfRange>)
        ensures
            r == (match Vote::from_value(i) {
                Some(e) => Ok(e),
                None => Err(IntOutOfRange),
            }),
    {
        if i == VOTE_UNKNOWN {
            Ok(Vote::Unknown)
        } else if i == VOTE_START_OP {
            Ok(Vote::StartOp)
        } else if i == VOTE_START_KICK {
            Ok(Vote::StartKick)
        } else if i == VOTE_START_SPEC {
            Ok(Vote::StartSpec)
        } else if i == VOTE_END_ABORT {
            Ok(Vote::EndAbort)
        } else if i == VOTE_END_PASS {
            Ok(Vote::EndPass)
        } else if i == VOTE_END_FAIL {
            Ok(Vote::EndFail)
        } else {
            Err(IntOutOfRange)
        }
    }

    pub fn to_i32(self) -> (r: i32)
        ensures
            r == self.value(),
    {
        match self {
            Vote::Unknown => VOTE_UNKNOWN,
            Vote::StartOp => VOTE_START_OP,
            Vote::StartKick => VOTE_START_KICK,
            Vote::StartSpec => VOTE_START_SPEC,
            Vote::EndAbort => VOTE_END_ABORT,
            Vote::EndPass => VOTE_END_PASS,
            Vote::EndFail => VOTE_END_FAIL,
        }
    }
}

/// Each `Vote` has a number of its own, and reading that number gives it
/// back.
pub proof fn lemma_vote_values(e: Vote, i: i32)
    ensures
        Vote::from_value(e.value()) == Some(e),
        Vote::from_value(i) matches Some(f) ==> f.value() == i,
{
}

impl Chat {
    /// The number that stands for the variant on the wire.
    pub open spec fn value(self) -> i32 {
        match self {
            Chat::None_ => CHAT_NONE,
            Chat::All => CHAT_ALL,
            Chat::Team => CHAT_TEAM,
            Chat::Whisper => CHAT_WHISPER,
        }
    }

    /// The variant that the number `i` stands for, if any.
    pub open spec fn from_value(i: i32) -> Option<Chat> {
        if i == CHAT_NONE {
            Some(Chat::None_)
        } else if i == CHAT_ALL {
            Some(Chat::All)
        } else if i == CHAT_TEAM {
            Some(Chat::Team)
        } else if i == CHAT_WHISPER {
            Some(Chat::Whisper)
        } else {
            None
        }
    }

    pub fn from_i32(i: i32) -> (r: Result<Chat, IntOutOfRange>)
        ensures
            r == (match Chat::from_value(i) {
                Some(e) => Ok(e),
                None => Err(IntOutOfRange),
            }),
    {
        if i == CHAT_NONE {
            Ok(Chat::None_)
        } else if i == CHAT_ALL {
            Ok(Chat::All)
        } else if i == CHAT_TEAM {
            Ok(Chat::Team)
        } else if i == CHAT_WHISPER {
            Ok(Chat::Whisper)
        } else {
            Err(IntOutOfRange)
        }
    }

    pub fn to_i32(self) -> (r: i32)
        ensures
            r == self.value(),
    {
        match self {
            Chat::None_ => CHAT_NONE,
            Chat::All => CHAT_ALL,
            Chat::Team => CHAT_TEAM,
            Chat::Whisper => CHAT_WHISPER,
        }
    }
}

/// Each `Chat` has a number of its own, and reading that number gives it
/// back.
pub proof fn lemma_chat_values(e: Chat, i: i32)
    ensures
        Chat::from_value(e.value()) == Some(e),
        Chat::from_value(i) matches Some(f) ==> f.value() == i,
{
}

impl Gamemsg {
    /// The number that stands for the variant on the wire.
    pub open spec fn value(self) -> i32 {
        match self {
            Gamemsg::TeamSwap => GAMEMSG_TEAM_SWAP,
            Gamemsg::SpecInvalidId => GAMEMSG_SPEC_INVALID_ID,
            Gamemsg::TeamShuffle => GAMEMSG_TEAM_SHUFFLE,
            Gamemsg::TeamBalance => GAMEMSG_TEAM_BALANCE,
            Gamemsg::CtfDrop => GAMEMSG_CTF_DROP,
            Gamemsg::CtfReturn => GAMEMSG_CTF_RETURN,
            Gamemsg::TeamAll => GAMEMSG_TEAM_ALL,
            Gamemsg::TeamBalanceVictim => GAMEMSG_TEAM_BALANCE_VICTIM,
            Gamemsg::CtfGrab => GAMEMSG_CTF_GRAB,
            Gamemsg::CtfCapture => GAMEMSG_CTF_CAPTURE,
            Gamemsg::GamePaused => GAMEMSG_GAME_PAUSED,
        }
    }

    /// The variant that the number `i` stands for, if any.
    pub open spec fn from_value(i: i32) -> Option<Gamemsg> {
        if i == GAMEMSG_TEAM_SWAP {
            Some(Gamemsg::TeamSwap)
        } else if i == GAMEMSG_SPEC_INVALID_ID {
            Some(Gamemsg::SpecInvalidId)
        } else if i == GAMEMSG_TEAM_SHUFFLE {
            Some(Gamemsg::TeamShuffle)
        } else if i == GAMEMSG_TEAM_BALANCE {
            Some(Gamemsg::TeamBalance)
        } else if i == GAMEMSG_CTF_DROP {
            Some(Gamemsg::CtfDrop)
        } else if i == GAMEMSG_CTF_RETURN {
            Some(Gamemsg::CtfReturn)
        } else if i == GAMEMSG_TEAM_ALL {
            Some(Gamemsg::TeamAll)
        } else if i == GAMEMSG_TEAM_BALANCE_VICTIM {
            Some(Gamemsg::TeamBalanceVictim)
        } else if i == GAMEMSG_CTF_GRAB {
            Some(Gamemsg::CtfGrab)
        } else if i == GAMEMSG_CTF_CAPTURE {
            Some(Gamemsg::CtfCapture)
        } else if i == GAMEMSG_GAME_PAUSED {
            Some(Gamemsg::GamePaused)
        } else {
            None
        }
    }

    pub fn from_i32(i: i32) -> (r: Result<Gamemsg, IntOutOfRange>)
        ensures
            r == (match Gamemsg::from_value(i) {
                Some(e) => Ok(e),
                None => Err(IntOutOfRange),
            }),
    {
        if i == GAMEMSG_TEAM_SWAP {
            Ok(Gamemsg::TeamSwap)
        } else if i == GAMEMSG_SPEC_INVALID_ID {
            Ok(Gamemsg::SpecInvalidId)
        } else if i == GAMEMSG_TEAM_SHUFFLE {
            Ok(Gamemsg::TeamShuffle)
        } else if i == GAMEMSG_TEAM_BALANCE {
            Ok(Gamemsg::TeamBalance)
        } else if i == GAMEMSG_CTF_DROP {
            Ok(Gamemsg::CtfDrop)
        } else if i == GAMEMSG_CTF_RETURN {
            Ok(Gamemsg::CtfReturn)
        } else if i == GAMEMSG_TEAM_ALL {
            Ok(Gamemsg::TeamAll)
        } else if i == GAMEMSG_TEAM_BALANCE_VICTIM {
            Ok(Gamemsg::TeamBalanceVictim)
        } else if i == GAMEMSG_CTF_GRAB {
            Ok(Gamemsg::CtfGrab)
        } else if i == GAMEMSG_CTF_CAPTURE {
            Ok(Gamemsg::CtfCapture)
        } else if i == GAMEMSG_GAME_PAUSED {
            Ok(Gamemsg::GamePaused)
        } else {
            Err(IntOutOfRange)
        }
    }

    pub fn to_i32(self) -> (r: i32)
        ensures
            r == self.value(),
    {
        match self {
            Gamemsg::TeamSwap => GAMEMSG_TEAM_SWAP,
            Gamemsg::SpecInvalidId => GAMEMSG_SPEC_INVALID_ID,
            Gamemsg::TeamShuffle => GAMEMSG_TEAM_SHUFFLE,
            Gamemsg::TeamBalance => GAMEMSG_TEAM_BALANCE,
            Gamemsg::CtfDrop => GAMEMSG_CTF_DROP,
            Gamemsg::CtfReturn => GAMEMSG_CTF_RETURN,
            Gamemsg::TeamAll => GAMEMSG_TEAM_ALL,
            Gamemsg::TeamBalanceVictim => GAMEMSG_TEAM_BALANCE_VICTIM,
            Gamemsg::CtfGrab => GAMEMSG_CTF_GRAB,
            Gamemsg::CtfCapture => GAMEMSG_CTF_CAPTURE,
            Gamemsg::GamePaused => GAMEMSG_GAME_PAUSED,
        }
    }
}

/// Each `Gamemsg` has a number of its own, and reading that number gives it
/// back.
pub proof fn lemma_gamemsg_values(e: Gamemsg, i: i32)
    ensures
        Gamemsg::from_value(e.value()) == Some(e),
        Gamemsg::from_value(i) matches Some(f) ==> f.value() == i,
{
}

impl Weapon {
    /// The number that stands for the variant on the wire.
    pub open spec fn value(self) -> i32 {
        match self {
            Weapon::Hammer => WEAPON_HAMMER,
            Weapon::Pistol => WEAPON_PISTOL,
            Weapon::Shotgun => WEAPON_SHOTGUN,
            Weapon::Grenade => WEAPON_GRENADE,
            Weapon::Rifle => WEAPON_RIFLE,
            Weapon::Ninja => WEAPON_NINJA,
        }
    }

    /// The variant that the number `i` stands for, if any.
    pub open spec fn from_value(i: i32) -> Option<Weapon> {
        if i == WEAPON_HAMMER {
            Some(Weapon::Hammer)
        } else if i == WEAPON_PISTOL {
            Some(Weapon::Pistol)
        } else if i == WEAPON_SHOTGUN {
            Some(Weapon::Shotgun)
        } else if i == WEAPON_GRENADE {
            Some(Weapon::Grenade)
        } else if i == WEAPON_RIFLE {
            Some(Weapon::Rifle)
        } else if i == WEAPON_NINJA {
            Some(Weapon::Ninja)
        } else {
            None
        }
    }

    pub fn from_i32(i: i32) -> (r: Result<Weapon, IntOutOfRange>)
        ensures
            r == (match Weapon::from_value(i) {
                Some(e) => Ok(e),
                None => Err(IntOutOfRange),
            }),
    {
        if i == WEAPON_HAMMER {
            Ok(Weapon::Hammer)
        } else if i == WEAPON_PISTOL {
            Ok(Weapon::Pistol)
        } else if i == WEAPON_SHOTGUN {
            Ok(Weapon::Shotgun)
        } else if i == WEAPON_GRENADE {
            Ok(Weapon::Grenade)
        } else if i == WEAPON_RIFLE {
            Ok(Weapon::Rifle)
        } else if i == WEAPON_NINJA {
            Ok(Weapon::Ninja)
        } else {
            Err(IntOutOfRange)
        }
    }

    pub fn to_i32(self) -> (r: i32)
        ensures
            r == self.value(),
    {
        match self {
            Weapon::Hammer => WEAPON_HAMMER,
            Weapon::Pistol => WEAPON_PISTOL,
            Weapon::Shotgun => WEAPON_SHOTGUN,
            Weapon::Grenade => WEAPON_GRENADE,
            Weapon::Rifle => WEAPON_RIFLE,
            Weapon::Ninja => WEAPON_NINJA,
        }
    }
}

/// Each `Weapon` has a number of its own, and reading that number gives it
/// back.
pub proof fn lemma_weapon_values(e: Weapon, i: i32)
    ensures
        Weapon::from_value(e.value()) == Some(e),
        Weapon::from_value(i) matches Some(f) ==> f.value() == i,
{
}

impl Team {
    /// The number that stands for the variant on the wire.
    pub open spec fn value(self) -> i32 {
        match self {
            Team::Spectators => TEAM_SPECTATORS,
            Team::Red => TEAM_RED,
            Team::Blue => TEAM_BLUE,
        }
    }

    /// The variant that the number `i` stands for, if any.
    pub open spec fn from_value(i: i32) -> Option<Team> {
        if i == TEAM_SPECTATORS {
            Some(Team::Spectators)
        } else if i == TEAM_RED {
            Some(Team::Red)
        } else if i == TEAM_BLUE {
            Some(Team::Blue)
        } else {
            None
        }
    }

    pub fn from_i32(i: i32) -> (r: Result<Team, IntOutOfRange>)
        ensures
            r == (match Team::from_value(i) {
                Some(e) => Ok(e),
                None => Err(IntOutOfRange),
            }),
    {
        if i == TEAM_SPECTATORS {
            Ok(Team::Spectators)
        } else if i == TEAM_RED {
            Ok(Team::Red)
        } else if i == TEAM_BLUE {
            Ok(Team::Blue)
        } else {
            Err(IntOutOfRange)
        }
    }

    pub fn to_i32(self) -> (r: i32)
        ensures
            r == self.value(),
    {
        match self {
            Team::Spectators => TEAM_SPECTATORS,
            Team::Red => TEAM_RED,
            Team::Blue => TEAM_BLUE,
        }
    }
}

/// Each `Team` has a number of its own, and reading that number gives it
/// back.
pub proof fn lemma_team_values(e: Team, i: i32)
    ensures
        Team::from_value(e.value()) == Some(e),
        Team::from_value(i) matches Some(f) ==> f.value() == i,
{
}

impl Sound {
    /// The number that stands for the variant on the wire.
    pub open spec fn value(self) -> i32 {
        match self {
            Sound::GunFire => SOUND_GUN_FIRE,
            Sound::ShotgunFire => SOUND_SHOTGUN_FIRE,
            Sound::GrenadeFire => SOUND_GRENADE_FIRE,
            Sound::HammerFire => SOUND_HAMMER_FIRE,
            Sound::HammerHit => SOUND_HAMMER_HIT,
            Sound::NinjaFire => SOUND_NINJA_FIRE,
            Sound::GrenadeExplode => SOUND_GRENADE_EXPLODE,
            Sound::NinjaHit => SOUND_NINJA_HIT,
            Sound::RifleFire => SOUND_RIFLE_FIRE,
            Sound::RifleBounce => SOUND_RIFLE_BOUNCE,
            Sound::WeaponSwitch => SOUND_WEAPON_SWITCH,
            Sound::PlayerPainShort => SOUND_PLAYER_PAIN_SHORT,
            Sound::PlayerPainLong => SOUND_PLAYER_PAIN_LONG,
            Sound::BodyLand => SOUND_BODY_LAND,
            Sound::PlayerAirjump => SOUND_PLAYER_AIRJUMP,
            Sound::PlayerJump => SOUND_PLAYER_JUMP,
            Sound::PlayerDie => SOUND_PLAYER_DIE,
            Sound::PlayerSpawn => SOUND_PLAYER_SPAWN,
            Sound::PlayerSkid => SOUND_PLAYER_SKID,
            Sound::TeeCry => SOUND_TEE_CRY,
            Sound::HookLoop => SOUND_HOOK_LOOP,
            Sound::HookAttachGround => SOUND_HOOK_ATTACH_GROUND,
            Sound::HookAttachPlayer => SOUND_HOOK_ATTACH_PLAYER,
            Sound::HookNoattach => SOUND_HOOK_NOATTACH,
            Sound::PickupHealth => SOUND_PICKUP_HEALTH,
            Sound::PickupArmor => SOUND_PICKUP_ARMOR,
            Sound::PickupGrenade => SOUND_PICKUP_GRENADE,
            Sound::PickupShotgun => SOUND_PICKUP_SHOTGUN,
            Sound::PickupNinja => SOUND_PICKUP_NINJA,
            Sound::WeaponSpawn => SOUND_WEAPON_SPAWN,
            Sound::WeaponNoammo => SOUND_WEAPON_NOAMMO,
            Sound::Hit => SOUND_HIT,
            Sound::ChatServer => SOUND_CHAT_SERVER,
            Sound::ChatClient => SOUND_CHAT_CLIENT,
            Sound::ChatHighlight => SOUND_CHAT_HIGHLIGHT,
            Sound::CtfDrop => SOUND_CTF_DROP,
            Sound::CtfReturn => SOUND_CTF_RETURN,
            Sound::CtfGrabPl => SOUND_CTF_GRAB_PL,
            Sound::CtfGrabEn => SOUND_CTF_GRAB_EN,
            Sound::CtfCapture => SOUND_CTF_CAPTURE,
            Sound::Menu => SOUND_MENU,
        }
    }

    /// The variant that the number `i` stands for, if any.
    pub open spec fn from_value(i: i32) -> Option<Sound> {
        if i == SOUND_GUN_FIRE {
            Some(Sound::GunFire)
        } else if i == SOUND_SHOTGUN_FIRE {
            Some(Sound::ShotgunFire)
        } else if i == SOUND_GRENADE_FIRE {
            Some(Sound::GrenadeFire)
        } else if i == SOUND_HAMMER_FIRE {
            Some(Sound::HammerFire)
        } else if i == SOUND_HAMMER_HIT {
            Some(Sound::HammerHit)
        } else if i == SOUND_NINJA_FIRE {
            Some(Sound::NinjaFire)
        } else if i == SOUND_GRENADE_EXPLODE {
            Some(Sound::GrenadeExplode)
        } else if i == SOUND_NINJA_HIT {
            Some(Sound::NinjaHit)
        } else if i == SOUND_RIFLE_FIRE {
            Some(Sound::RifleFire)
        } else if i == SOUND_RIFLE_BOUNCE {
            Some(Sound::RifleBounce)
        } else if i == SOUND_WEAPON_SWITCH {
            Some(Sound::WeaponSwitch)
        } else if i == SOUND_PLAYER_PAIN_SHORT {
            Some(Sound::PlayerPainShort)
        } else if i == SOUND_PLAYER_PAIN_LONG {
            Some(Sound::PlayerPainLong)
        } else if i == SOUND_BODY_LAND {
            Some(Sound::BodyLand)
        } else if i == SOUND_PLAYER_AIRJUMP {
            Some(Sound::PlayerAirjump)
        } else if i == SOUND_PLAYER_JUMP {
            Some(Sound::PlayerJump)
        } else if i == SOUND_PLAYER_DIE {
            Some(Sound::PlayerDie)
        } else if i == SOUND_PLAYER_SPAWN {
            Some(Sound::PlayerSpawn)
        } else if i == SOUND_PLAYER_SKID {
            Some(Sound::PlayerSkid)
        } else if i == SOUND_TEE_CRY {
            Some(Sound::TeeCry)
        } else if i == SOUND_HOOK_LOOP {
            Some(Sound::HookLoop)
        } else if i == SOUND_HOOK_ATTACH_GROUND {
            Some(Sound::HookAttachGround)
        } else if i == SOUND_HOOK_ATTACH_PLAYER {
            Some(Sound::HookAttachPlayer)
        } else if i == SOUND_HOOK_NOATTACH {
            Some(Sound::HookNoattach)
        } else if i == SOUND_PICKUP_HEALTH {
            Some(Sound::PickupHealth)
        } else if i == SOUND_PICKUP_ARMOR {
            Some(Sound::PickupArmor)
        } else if i == SOUND_PICKUP_GRENADE {
            Some(Sound::PickupGrenade)
        } else if i == SOUND_PICKUP_SHOTGUN {
            Some(Sound::PickupShotgun)
        } else if i == SOUND_PICKUP_NINJA {
            Some(Sound::PickupNinja)
        } else if i == SOUND_WEAPON_SPAWN {
            Some(Sound::WeaponSpawn)
        } else if i == SOUND_WEAPON_NOAMMO {
            Some(Sound::WeaponNoammo)
        } else if i == SOUND_HIT {
            Some(Sound::Hit)
        } else if i == SOUND_CHAT_SERVER {
            Some(Sound::ChatServer)
        } else if i == SOUND_CHAT_CLIENT {
            Some(Sound::ChatClient)
        } else if i == SOUND_CHAT_HIGHLIGHT {
            Some(Sound::ChatHighlight)
        } else if i == SOUND_CTF_DROP {
            Some(Sound::CtfDrop)
        } else if i == SOUND_CTF_RETURN {
            Some(Sound::CtfReturn)
        } else if i == SOUND_CTF_GRAB_PL {
            Some(Sound::CtfGrabPl)
        } else if i == SOUND_CTF_GRAB_EN {
            Some(Sound::CtfGrabEn)
        } else if i == SOUND_CTF_CAPTURE {
            Some(Sound::CtfCapture)
        } else if i == SOUND_MENU {
            Some(Sound::Menu)
        } else {
            None
        }
    }

    pub fn from_i32(i: i32) -> (r: Result<Sound, IntOutOfRange>)
        ensures
            r == (match Sound::from_value(i) {
                Some(e) => Ok(e),
                None => Err(IntOutOfRange),
            }),
    {
        if i == SOUND_GUN_FIRE {
            Ok(Sound::GunFire)
        } else if i == SOUND_SHOTGUN_FIRE {
            Ok(Sound::ShotgunFire)
        } else if i == SOUND_GRENADE_FIRE {
            Ok(Sound::GrenadeFire)
        } else if i == SOUND_HAMMER_FIRE {
            Ok(Sound::HammerFire)
        } else if i == SOUND_HAMMER_HIT {
            Ok(Sound::HammerHit)
        } else if i == SOUND_NINJA_FIRE {
            Ok(Sound::NinjaFire)
        } else if i == SOUND_GRENADE_EXPLODE {
            Ok(Sound::GrenadeExplode)
        } else if i == SOUND_NINJA_HIT {
            Ok(Sound::NinjaHit)
        } else if i == SOUND_RIFLE_FIRE {
            Ok(Sound::RifleFire)
        } else if i == SOUND_RIFLE_BOUNCE {
            Ok(Sound::RifleBounce)
        } else if i == SOUND_WEAPON_SWITCH {
            Ok(Sound::WeaponSwitch)
        } else if i == SOUND_PLAYER_PAIN_SHORT {
            Ok(Sound::PlayerPainShort)
        } else if i == SOUND_PLAYER_PAIN_LONG {
            Ok(Sound::PlayerPainLong)
        } else if i == SOUND_BODY_LAND {
            Ok(Sound::BodyLand)
        } else if i == SOUND_PLAYER_AIRJUMP {
            Ok(Sound::PlayerAirjump)
        } else if i == SOUND_PLAYER_JUMP {
            Ok(Sound::PlayerJump)
        } else if i == SOUND_PLAYER_DIE {
            Ok(Sound::PlayerDie)
        } else if i == SOUND_PLAYER_SPAWN {
            Ok(Sound::PlayerSpawn)
        } else if i == SOUND_PLAYER_SKID {
            Ok(Sound::PlayerSkid)
        } else if i == SOUND_TEE_CRY {
            Ok(Sound::TeeCry)
        } else if i == SOUND_HOOK_LOOP {
            Ok(Sound::HookLoop)
        } else if i == SOUND_HOOK_ATTACH_GROUND {
            Ok(Sound::HookAttachGround)
        } else if i == SOUND_HOOK_ATTACH_PLAYER {
            Ok(Sound::HookAttachPlayer)
        } else if i == SOUND_HOOK_NOATTACH {
            Ok(Sound::HookNoattach)
        } else if i == SOUND_PICKUP_HEALTH {
            Ok(Sound::PickupHealth)
        } else if i == SOUND_PICKUP_ARMOR {
            Ok(Sound::PickupArmor)
        } else if i == SOUND_PICKUP_GRENADE {
            Ok(Sound::PickupGrenade)
        } else if i == SOUND_PICKUP_SHOTGUN {
            Ok(Sound::PickupShotgun)
        } else if i == SOUND_PICKUP_NINJA {
            Ok(Sound::PickupNinja)
        } else if i == SOUND_WEAPON_SPAWN {
            Ok(Sound::WeaponSpawn)
        } else if i == SOUND_WEAPON_NOAMMO {
            Ok(Sound::WeaponNoammo)
        } else if i == SOUND_HIT {
            Ok(Sound::Hit)
        } else if i == SOUND_CHAT_SERVER {
            Ok(Sound::ChatServer)
        } else if i == SOUND_CHAT_CLIENT {
            Ok(Sound::ChatClient)
        } else if i == SOUND_CHAT_HIGHLIGHT {
            Ok(Sound::ChatHighlight)
        } else if i == SOUND_CTF_DROP {
            Ok(Sound::CtfDrop)
        } else if i == SOUND_CTF_RETURN {
            Ok(Sound::CtfReturn)
        } else if i == SOUND_CTF_GRAB_PL {
            Ok(Sound::CtfGrabPl)
        } else if i == SOUND_CTF_GRAB_EN {
            Ok(Sound::CtfGrabEn)
        } else if i == SOUND_CTF_CAPTURE {
            Ok(Sound::CtfCapture)
        } else if i == SOUND_MENU {
            Ok(Sound::Menu)
        } else {
            Err(IntOutOfRange)
        }
    }

    pub fn to_i32(self) -> (r: i32)
        ensures
            r == self.value(),
    {
        match self {
            Sound::GunFire => SOUND_GUN_FIRE,
            Sound::ShotgunFire => SOUND_SHOTGUN_FIRE,
            Sound::GrenadeFire => SOUND_GRENADE_FIRE,
            Sound::HammerFire => SOUND_HAMMER_FIRE,
            Sound::HammerHit => SOUND_HAMMER_HIT,
            Sound::NinjaFire => SOUND_NINJA_FIRE,
            Sound::GrenadeExplode => SOUND_GRENADE_EXPLODE,
            Sound::NinjaHit => SOUND_NINJA_HIT,
            Sound::RifleFire => SOUND_RIFLE_FIRE,
            Sound::RifleBounce => SOUND_RIFLE_BOUNCE,
            Sound::WeaponSwitch => SOUND_WEAPON_SWITCH,
            Sound::PlayerPainShort => SOUND_PLAYER_PAIN_SHORT,
            Sound::PlayerPainLong => SOUND_PLAYER_PAIN_LONG,
            Sound::BodyLand => SOUND_BODY_LAND,
            Sound::PlayerAirjump => SOUND_PLAYER_AIRJUMP,
            Sound::PlayerJump => SOUND_PLAYER_JUMP,
            Sound::PlayerDie => SOUND_PLAYER_DIE,
            Sound::PlayerSpawn => SOUND_PLAYER_SPAWN,
            Sound::PlayerSkid => SOUND_PLAYER_SKID,
            Sound::TeeCry => SOUND_TEE_CRY,
            Sound::HookLoop => SOUND_HOOK_LOOP,
            Sound::HookAttachGround => SOUND_HOOK_ATTACH_GROUND,
            Sound::HookAttachPlayer => SOUND_HOOK_ATTACH_PLAYER,
            Sound::HookNoattach => SOUND_HOOK_NOATTACH,
            Sound::PickupHealth => SOUND_PICKUP_HEALTH,
            Sound::PickupArmor => SOUND_PICKUP_ARMOR,
            Sound::PickupGrenade => SOUND_PICKUP_GRENADE,
            Sound::PickupShotgun => SOUND_PICKUP_SHOTGUN,
            Sound::PickupNinja => SOUND_PICKUP_NINJA,
            Sound::WeaponSpawn => SOUND_WEAPON_SPAWN,
            Sound::WeaponNoammo => SOUND_WEAPON_NOAMMO,
            Sound::Hit => SOUND_HIT,
            Sound::ChatServer => SOUND_CHAT_SERVER,
            Sound::ChatClient => SOUND_CHAT_CLIENT,
            Sound::ChatHighlight => SOUND_CHAT_HIGHLIGHT,
            Sound::CtfDrop => SOUND_CTF_DROP,
            Sound::CtfReturn => SOUND_CTF_RETURN,
            Sound::CtfGrabPl => SOUND_CTF_GRAB_PL,
            Sound::CtfGrabEn => SOUND_CTF_GRAB_EN,
            Sound::CtfCapture => SOUND_CTF_CAPTURE,
            Sound::Menu => SOUND_MENU,
        }
    }
}

/// Each `Sound` has a number of its own, and reading that number gives it
/// back.
pub proof fn lemma_sound_values(e: Sound, i: i32)
    ensures
        Sound::from_value(e.value()) == Some(e),
        Sound::from_value(i) matches Some(f) ==> f.value() == i,
{
}

impl Spec {
    /// The number that stands for the variant on the wire.
    pub open spec fn value(self) -> i32 {
        match self {
            Spec::Freeview => SPEC_FREEVIEW,
            Spec::Player => SPEC_PLAYER,
            Spec::Flagred => SPEC_FLAGRED,
            Spec::Flagblue => SPEC_FLAGBLUE,
        }
    }

    /// The variant that the number `i` stands for, if any.
    pub open spec fn from_value(i: i32) -> Option<Spec> {
        if i == SPEC_FREEVIEW {
            Some(Spec::Freeview)
        } else if i == SPEC_PLAYER {
            Some(Spec::Player)
        } else if i == SPEC_FLAGRED {
            Some(Spec::Flagred)
        } else if i == SPEC_FLAGBLUE {
            Some(Spec::Flagblue)
        } else {
            None
        }
    }

    pub fn from_i32(i: i32) -> (r: Result<Spec, IntOutOfRange>)
        ensures
            r == (match Spec::from_value(i) {
                Some(e) => Ok(e),
                None => Err(IntOutOfRange),
            }),
    {
        if i == SPEC_FREEVIEW {
            Ok(Spec::Freeview)
        } else if i == SPEC_PLAYER {
            Ok(Spec::Player)
        } else if i == SPEC_FLAGRED {
            Ok(Spec::Flagred)
        } else if i == SPEC_FLAGBLUE {
            Ok(Spec::Flagblue)
        } else {
            Err(IntOutOfRange)
        }
    }

    pub fn to_i32(self) -> (r: i32)
        ensures
            r == self.value(),
    {
        match self {
            Spec::Freeview => SPEC_FREEVIEW,
            Spec::Player => SPEC_PLAYER,
            Spec::Flagred => SPEC_FLAGRED,
            Spec::Flagblue => SPEC_FLAGBLUE,
        }
    }
}

/// Each `Spec` has a number of its own, and reading that number gives it
/// back.
pub proof fn lemma_spec_values(e: Spec, i: i32)
    ensures
        Spec::from_value(e.value()) == Some(e),
        Spec::from_value(i) matches Some(f) ==> f.value() == i,
{
}

impl Skinpart {
    /// The number that stands for the variant on the wire.
    pub open spec fn value(self) -> i32 {
        match self {
            Skinpart::Body => SKINPART_BODY,
            Skinpart::Marking => SKINPART_MARKING,
            Skinpart::Decoration => SKINPART_DECORATION,
            Skinpart::Hands => SKINPART_HANDS,
            Skinpart::Feet => SKINPART_FEET,
            Skinpart::Eyes => SKINPART_EYES,
        }
    }

    /// The variant that the number `i` stands for, if any.
    pub open spec fn from_value(i: i32) -> Option<Skinpart> {
        if i == SKINPART_BODY {
            Some(Skinpart::Body)
        } else if i == SKINPART_MARKING {
            Some(Skinpart::Marking)
        } else if i == SKINPART_DECORATION {
            Some(Skinpart::Decoration)
        } else if i == SKINPART_HANDS {
            Some(Skinpart::Hands)
        } else if i == SKINPART_FEET {
            Some(Skinpart::Feet)
        } else if i == SKINPART_EYES {
            Some(Skinpart::Eyes)
        } else {
            None
        }
    }

    pub fn from_i32(i: i32) -> (r: Result<Skinpart, IntOutOfRange>)
        ensures
            r == (match Skinpart::from_value(i) {
                Some(e) => Ok(e),
                None => Err(IntOutOfRange),
            }),
    {
        if i == SKINPART_BODY {
            Ok(Skinpart::Body)
        } else if i == SKINPART_MARKING {
            Ok(Skinpart::Marking)
        } else if i == SKINPART_DECORATION {
            Ok(Skinpart::Decoration)
        } else if i == SKINPART_HANDS {
            Ok(Skinpart::Hands)
        } else if i == SKINPART_FEET {
            Ok(Skinpart::Feet)
        } else if i == SKINPART_EYES {
            Ok(Skinpart::Eyes)
        } else {
            Err(IntOutOfRange)
        }
    }

    pub fn to_i32(self) -> (r: i32)
        ensures
            r == self.value(),
    {
        match self {
            Skinpart::Body => SKINPART_BODY,
            Skinpart::Marking => SKINPART_MARKING,
            Skinpart::Decoration => SKINPART_DECORATION,
            Skinpart::Hands => SKINPART_HANDS,
            Skinpart::Feet => SKINPART_FEET,
            Skinpart::Eyes => SKINPART_EYES,
        }
    }
}

/// Each `Skinpart` has a number of its own, and reading that number gives it
/// back.
pub proof fn lemma_skinpart_values(e: Skinpart, i: i32)
    ensures
        Skinpart::from_value(e.value()) == Some(e),
        Skinpart::from_value(i) matches Some(f) ==> f.value() == i,
{
}

} // verus!
