//! The data model: players, snapshots, world bounds, tick-stamped values and
//! the closed set of decoded messages the engine consumes.

use vstd::prelude::*;

verus! {

/// A coordinate triple carried as the raw bit patterns of the decoder's three
/// single-precision components. The engine only stores and compares these
/// values; it never does arithmetic on them.
#[derive(Clone, Copy, PartialEq, Eq, Structural, Debug)]
pub struct Vec3Bits {
    pub x: u32,
    pub y: u32,
    pub z: u32,
}

/// World geometry limits, present once the decoder has seen a world-geometry
/// message.
#[derive(Clone, Copy, PartialEq, Eq, Structural, Debug)]
pub struct WorldBounds {
    pub min: Vec3Bits,
    pub max: Vec3Bits,
}

/// Character class of a player.
#[derive(Clone, Copy, PartialEq, Eq, Structural, Debug)]
pub enum Class {
    Other,
    Scout,
    Sniper,
    Soldier,
    Demoman,
    Medic,
    Heavy,
    Pyro,
    Spy,
    Engineer,
}

impl Class {
    /// The display name of the class, as a character sequence.
    pub open spec fn spec_name(self) -> Seq<char> {
        match self {
            Class::Other => "other"@,
            Class::Scout => "scout"@,
            Class::Sniper => "sniper"@,
            Class::Soldier => "soldier"@,
            Class::Demoman => "demoman"@,
            Class::Medic => "medic"@,
            Class::Heavy => "heavy"@,
            Class::Pyro => "pyro"@,
            Class::Spy => "spy"@,
            Class::Engineer => "engineer"@,
        }
    }

    pub fn name(self) -> (r: &'static str)
        ensures
            r@ == self.spec_name(),
    {
        match self {
            Class::Other => "other",
            Class::Scout => "scout",
            Class::Sniper => "sniper",
            Class::Soldier => "soldier",
            Class::Demoman => "demoman",
            Class::Medic => "medic",
            Class::Heavy => "heavy",
            Class::Pyro => "pyro",
            Class::Spy => "spy",
            Class::Engineer => "engineer",
        }
    }
}

/// Team of a player.
#[derive(Clone, Copy, PartialEq, Eq, Structural, Debug)]
pub enum Team {
    Other,
    Spectator,
    Red,
    Blue,
}

impl Team {
    /// The display name of the team, as a character sequence.
    pub open spec fn spec_name(self) -> Seq<char> {
        match self {
            Team::Other => "other"@,
            Team::Spectator => "spectator"@,
            Team::Red => "red"@,
            Team::Blue => "blu"@,
        }
    }

    pub fn name(self) -> (r: &'static str)
        ensures
            r@ == self.spec_name(),
    {
        match self {
            Team::Other => "other",
            Team::Spectator => "spectator",
            Team::Red => "red",
            Team::Blue => "blu",
        }
    }
}

/// Life state of a player.
#[derive(Clone, Copy, PartialEq, Eq, Structural, Debug)]
pub enum LifeState {
    Alive,
    Dying,
    Death,
    Respawnable,
}

impl LifeState {
    /// The display name of the life state, as a character sequence.
    pub open spec fn spec_name(self) -> Seq<char> {
        match self {
            LifeState::Alive => "alive"@,
            LifeState::Dying => "dying"@,
            LifeState::Death => "death"@,
            LifeState::Respawnable => "queue"@,
        }
    }

    pub fn name(self) -> (r: &'static str)
        ensures
            r@ == self.spec_name(),
    {
        match self {
            LifeState::Alive => "alive",
            LifeState::Dying => "dying",
            LifeState::Death => "death",
            LifeState::Respawnable => "queue",
        }
    }
}

/// The decoder's latest view of one player in the world model.
///
/// `user_id` is the weak identity reference: `None` until the decoder has
/// attached identity information to the entity. `view_angle` and
/// `pitch_angle` carry the raw bit patterns of the decoder's
/// single-precision angles.
#[derive(Clone, Copy, Debug)]
pub struct Player {
    pub entity: u32,
    pub user_id: Option<u16>,
    pub position: Vec3Bits,
    pub health: u16,
    pub max_health: u16,
    pub class: Class,
    pub team: Team,
    pub view_angle: u32,
    pub pitch_angle: u32,
    pub state: LifeState,
    pub charge: u8,
    pub in_pvs: bool,
    pub simtime: u16,
}

/// The identity key a player is deduplicated and correlated under: the user
/// id when the player carries identity information, `None` otherwise.
pub open spec fn player_key(p: Player) -> Option<u16> {
    p.user_id
}

/// A flattened, display-ready form of a player state, as recorded in the
/// snapshot output table.
#[derive(Clone, Copy, Debug)]
pub struct Snapshot {
    pub position: Vec3Bits,
    pub health: u16,
    pub max_health: u16,
    pub class: &'static str,
    pub team: &'static str,
    pub view_angle: u32,
    pub pitch_angle: u32,
    pub state: &'static str,
    pub user_id: Option<u16>,
    pub charge: u8,
    pub in_pvs: bool,
    pub simtime: u16,
}

/// How a snapshot reflects a player state: enum-valued fields carry their
/// display names, every other field is carried over unchanged.
pub open spec fn snapshot_matches(s: Snapshot, p: Player) -> bool {
    &&& s.position == p.position
    &&& s.health == p.health
    &&& s.max_health == p.max_health
    &&& s.class@ == p.class.spec_name()
    &&& s.team@ == p.team.spec_name()
    &&& s.view_angle == p.view_angle
    &&& s.pitch_angle == p.pitch_angle
    &&& s.state@ == p.state.spec_name()
    &&& s.user_id == p.user_id
    &&& s.charge == p.charge
    &&& s.in_pvs == p.in_pvs
    &&& s.simtime == p.simtime
}

impl Snapshot {
    /// Flattens a player state: enum-valued fields become their display
    /// names, every other field is carried over unchanged.
    pub fn from_player(p: &Player) -> (s: Snapshot)
        ensures
            snapshot_matches(s, *p),
    {
        Snapshot {
            position: p.position,
            health: p.health,
            max_health: p.max_health,
            class: p.class.name(),
            team: p.team.name(),
            view_angle: p.view_angle,
            pitch_angle: p.pitch_angle,
            state: p.state.name(),
            user_id: p.user_id,
            charge: p.charge,
            in_pvs: p.in_pvs,
            simtime: p.simtime,
        }
    }
}

/// Pairs an emitted value with the tick at which it was produced, so that
/// all outputs are temporally orderable.
#[derive(Clone, Copy, Debug)]
pub struct WithTick<T> {
    pub inner: T,
    pub tick: u32,
}

/// Ticks of a tick-stamped sequence are non-decreasing in emission order.
pub open spec fn ticks_non_decreasing<T>(s: Seq<WithTick<T>>) -> bool {
    forall|i: int, j: int| 0 <= i <= j < s.len() ==> s[i].tick <= s[j].tick
}

/// A discrete damage event, consumed immediately by the correlator. The
/// correlation logic reads only the attacker and victim user ids; the
/// remaining columns are carried into the event table unchanged.
#[derive(Clone, Copy, PartialEq, Eq, Structural, Debug)]
pub struct DamageEvent {
    pub attacker: u16,
    pub victim: u16,
    pub amount: u16,
    pub health: u16,
    pub custom: u16,
    pub show_disguised_crit: bool,
    pub crit: bool,
    pub mini_crit: bool,
    pub all_see_crit: bool,
    pub weapon_id: u16,
    pub bonus_effect: u8,
}

/// A decoded game event: either a damage event or one of the many event
/// kinds the engine does not interpret.
#[derive(Clone, Copy, Debug)]
pub enum GameEventData {
    PlayerHurt(DamageEvent),
    Other,
}

/// A raw string-table entry as the decoder delivers it: the table's name,
/// the entry index, and the undecoded payload halves.
pub struct TableEntry {
    pub table: String,
    pub index: u16,
    pub text: Option<String>,
    pub extra: Option<Vec<u8>>,
}

/// The closed set of decoded messages the engine consumes, one per call, in
/// decoder-delivered order.
pub enum Message {
    PlayerUpdate(Player),
    WorldUpdate(WorldBounds),
    StringEntry(TableEntry),
    GameEvent(GameEventData),
}

/// A stable player identity, created once when a string-table entry for a
/// new user id is first observed and immutable thereafter.
#[derive(Clone, Debug)]
pub struct Profile {
    pub name: String,
    pub user_id: u16,
    pub steam_id: String,
    pub friends_id: u32,
    pub is_fake_player: bool,
    pub is_hl_tv: bool,
    pub is_replay: bool,
    pub custom_file: [u32; 4],
    pub files_downloaded: u32,
    pub more_extra: bool,
}

/// The identity fields of a decoded player-info string-table payload, with
/// the flag bytes still in their wire form.
pub struct PlayerInfoFields {
    pub name: String,
    pub user_id: u16,
    pub steam_id: String,
    pub friends_id: u32,
    pub is_fake_player: u8,
    pub is_hl_tv: u8,
    pub is_replay: u8,
    pub more_extra: u8,
    pub custom_file: [u32; 4],
    pub files_downloaded: u32,
}

/// The stable identity that decoded player-info fields give rise to: each
/// wire flag byte becomes true exactly when it is non-zero, every other
/// field is carried over unchanged.
pub open spec fn profile_of(info: PlayerInfoFields) -> Profile {
    Profile {
        name: info.name,
        user_id: info.user_id,
        steam_id: info.steam_id,
        friends_id: info.friends_id,
        is_fake_player: info.is_fake_player != 0,
        is_hl_tv: info.is_hl_tv != 0,
        is_replay: info.is_replay != 0,
        more_extra: info.more_extra != 0,
        custom_file: info.custom_file,
        files_downloaded: info.files_downloaded,
    }
}

impl Profile {
    /// Builds the stable identity from decoded player-info fields; each wire
    /// flag byte becomes true exactly when it is non-zero.
    pub fn from_info(info: PlayerInfoFields) -> (p: Profile)
        ensures
            p == profile_of(info),
    {
        Profile {
            name: info.name,
            user_id: info.user_id,
            steam_id: info.steam_id,
            friends_id: info.friends_id,
            is_fake_player: info.is_fake_player != 0,
            is_hl_tv: info.is_hl_tv != 0,
            is_replay: info.is_replay != 0,
            more_extra: info.more_extra != 0,
            custom_file: info.custom_file,
            files_downloaded: info.files_downloaded,
        }
    }
}

} // verus!
