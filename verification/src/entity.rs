//! Entity kinds: anything that lives in the world but isn't a block.
//!
//! The player is "just" an entity — see `EntityKind::Player` — but a special
//! one: its position is authoritative from the client that owns it and the
//! server never runs AI on it.

use vstd::prelude::*;

use crate::protocol::BlockId;

verus! {

/// Unique identifier of a live entity. `0` is never used.
pub type EntityId = u32;

/// Maximum health of a player, in hit points.
pub const PLAYER_MAX_HEALTH: i32 = 20;
pub const SLIME_MAX_HEALTH: i32 = 10;
pub const CHICKEN_MAX_HEALTH: i32 = 8;
pub const GOAT_MAX_HEALTH: i32 = 16;
pub const CAT_MAX_HEALTH: i32 = 8;
pub const PUPPY_MAX_HEALTH: i32 = 14;
pub const HORSE_MAX_HEALTH: i32 = 30;
pub const FARMER_MAX_HEALTH: i32 = 20;
pub const ZOMBIE_MAX_HEALTH: i32 = 40;
pub const SPIDER_MAX_HEALTH: i32 = 12;
pub const SKELETON_MAX_HEALTH: i32 = 24;
pub const SNAKE_MAX_HEALTH: i32 = 14;
pub const CHARRED_SKELETON_MAX_HEALTH: i32 = 36;
pub const DEMON_MAX_HEALTH: i32 = 28;
pub const GARGOYLE_MAX_HEALTH: i32 = 32;
pub const ENCHANTED_DEMON_MAX_HEALTH: i32 = 40;
pub const ORC_MAGE_MAX_HEALTH: i32 = 30;
pub const ORC_MAX_HEALTH: i32 = 50;
pub const MINOTAUR_MAX_HEALTH: i32 = 220;
pub const ASH_TWISTER_MAX_HEALTH: i32 = 18;
pub const NECROMANCER_MAX_HEALTH: i32 = 26;
pub const SKULL_MAX_HEALTH: i32 = 8;
pub const KNIGHT_MAX_HEALTH: i32 = 40;
pub const MAGE_MAX_HEALTH: i32 = 30;
pub const DARK_KNIGHT_MAX_HEALTH: i32 = 44;
pub const MUSKETEER_MAX_HEALTH: i32 = 34;
pub const DARK_MUSKETEER_MAX_HEALTH: i32 = 40;
pub const DRAGON_MAX_HEALTH: i32 = 200;
pub const WHITE_DRAGON_MAX_HEALTH: i32 = 200;
pub const DEMON_KING_MAX_HEALTH: i32 = 1000;
pub const TWINSCALE_MAX_HEALTH: i32 = 1600;

/// What an entity *is*.
#[derive(Debug, PartialEq)]
pub enum EntityKind {
    /// A player avatar driven by a connected client; carries the display name.
    Player { name: String },
    Slime,
    Chicken,
    Goat,
    /// A cat: wild (`owner` = `None`) or tamed by the named player.
    Cat { owner: Option<String>, sitting: bool },
    /// A puppy: wild (`owner` = `None`) or tamed by the named player.
    Puppy { owner: Option<String>, sitting: bool },
    Zombie,
    Spider,
    Snake,
    /// A stack of items lying on the ground.
    DroppedItem { block: BlockId, count: u32, durability: u16 },
    Skeleton,
    Bone,
    CharredSkeleton,
    Horse { owner: Option<String> },
    Demon,
    Fireball,
    Orc,
    Knight { owner: Option<String> },
    AshTwister,
    OrcMage,
    EnchantedDemon,
    MagicFireball,
    Necromancer,
    Skull,
    SummonerFireball,
    DarkKnight,
    Axe,
    DemonKing,
    Dragon,
    FriendlySummonerFireball,
    FriendlySkull,
    Mage { owner: Option<String> },
    WhiteDragon { owner: Option<String> },
    FriendlyDragonFireball,
    Musketeer { owner: Option<String> },
    DarkMusketeer,
    Bullet,
    FriendlyBullet,
    Twinscale,
    Minotaur,
    Gargoyle,
    Farmer,
}

/// Full health of an entity of kind `k`.
pub open spec fn spec_max_health(k: EntityKind) -> i32 {
    match k {
        EntityKind::Player { .. } => PLAYER_MAX_HEALTH,
        EntityKind::Slime => SLIME_MAX_HEALTH,
        EntityKind::Chicken => CHICKEN_MAX_HEALTH,
        EntityKind::Goat => GOAT_MAX_HEALTH,
        EntityKind::Cat { .. } => CAT_MAX_HEALTH,
        EntityKind::Puppy { .. } => PUPPY_MAX_HEALTH,
        EntityKind::Zombie => ZOMBIE_MAX_HEALTH,
        EntityKind::Spider => SPIDER_MAX_HEALTH,
        EntityKind::Snake => SNAKE_MAX_HEALTH,
        EntityKind::Skeleton => SKELETON_MAX_HEALTH,
        EntityKind::CharredSkeleton => CHARRED_SKELETON_MAX_HEALTH,
        EntityKind::Demon => DEMON_MAX_HEALTH,
        EntityKind::Horse { .. } => HORSE_MAX_HEALTH,
        EntityKind::Bone => 1,
        EntityKind::Fireball => 1,
        EntityKind::Orc => ORC_MAX_HEALTH,
        EntityKind::Knight { .. } => KNIGHT_MAX_HEALTH,
        EntityKind::AshTwister => ASH_TWISTER_MAX_HEALTH,
        EntityKind::OrcMage => ORC_MAGE_MAX_HEALTH,
        EntityKind::EnchantedDemon => ENCHANTED_DEMON_MAX_HEALTH,
        EntityKind::MagicFireball => 1,
        EntityKind::Necromancer => NECROMANCER_MAX_HEALTH,
        EntityKind::Skull => SKULL_MAX_HEALTH,
        EntityKind::SummonerFireball => 1,
        EntityKind::DarkKnight => DARK_KNIGHT_MAX_HEALTH,
        EntityKind::Axe => 1,
        EntityKind::DemonKing => DEMON_KING_MAX_HEALTH,
        EntityKind::Dragon => DRAGON_MAX_HEALTH,
        EntityKind::FriendlySummonerFireball => 1,
        EntityKind::FriendlySkull => SKULL_MAX_HEALTH,
        EntityKind::Mage { .. } => MAGE_MAX_HEALTH,
        EntityKind::WhiteDragon { .. } => WHITE_DRAGON_MAX_HEALTH,
        EntityKind::FriendlyDragonFireball => 1,
        EntityKind::Musketeer { .. } => MUSKETEER_MAX_HEALTH,
        EntityKind::DarkMusketeer => DARK_MUSKETEER_MAX_HEALTH,
        EntityKind::Bullet => 1,
        EntityKind::FriendlyBullet => 1,
        EntityKind::Twinscale => TWINSCALE_MAX_HEALTH,
        EntityKind::Minotaur => MINOTAUR_MAX_HEALTH,
        EntityKind::Gargoyle => GARGOYLE_MAX_HEALTH,
        EntityKind::Farmer => FARMER_MAX_HEALTH,
        EntityKind::DroppedItem { .. } => 1,
    }
}

/// The name of the player who has tamed an entity of kind `k`, if any: only a
/// cat or a puppy has an owner.
pub open spec fn spec_owner(k: EntityKind) -> Option<String> {
    match k {
        EntityKind::Cat { owner, .. } => owner,
        EntityKind::Puppy { owner, .. } => owner,
        _ => None,
    }
}

impl EntityKind {
    /// Whether this is a player avatar.
    pub fn is_player(&self) -> (r: bool)
        ensures
            r == (*self is Player),
    {
        matches!(self, EntityKind::Player { .. })
    }

    /// Whether this is a dropped block item lying on the ground.
    pub fn is_item(&self) -> (r: bool)
        ensures
            r == (*self is DroppedItem),
    {
        matches!(self, EntityKind::DroppedItem { .. })
    }

    /// Whether this is a cat (tamed or wild).
    pub fn is_cat(&self) -> (r: bool)
        ensures
            r == (*self is Cat),
    {
        matches!(self, EntityKind::Cat { .. })
    }

    /// Whether this is a puppy (tamed or wild).
    pub fn is_puppy(&self) -> (r: bool)
        ensures
            r == (*self is Puppy),
    {
        matches!(self, EntityKind::Puppy { .. })
    }

    /// Whether this is a horse (tamed or wild).
    pub fn is_horse(&self) -> (r: bool)
        ensures
            r == (*self is Horse),
    {
        matches!(self, EntityKind::Horse { .. })
    }

    /// Whether this is a knight (recruited or wild).
    pub fn is_knight(&self) -> (r: bool)
        ensures
            r == (*self is Knight),
    {
        matches!(self, EntityKind::Knight { .. })
    }

    /// Whether this is a musketeer (recruited or wild).
    pub fn is_musketeer(&self) -> (r: bool)
        ensures
            r == (*self is Musketeer),
    {
        matches!(self, EntityKind::Musketeer { .. })
    }

    /// Whether this is a companion that fights for the player — a knight or a
    /// musketeer.
    pub fn is_warrior(&self) -> (r: bool)
        ensures
            r == (*self is Knight || *self is Musketeer),
    {
        self.is_knight() || self.is_musketeer()
    }

    /// Whether this is a mage (recruited or wild).
    pub fn is_mage(&self) -> (r: bool)
        ensures
            r == (*self is Mage),
    {
        matches!(self, EntityKind::Mage { .. })
    }

    /// Whether this is a friendly white dragon steed.
    pub fn is_white_dragon(&self) -> (r: bool)
        ensures
            r == (*self is WhiteDragon),
    {
        matches!(self, EntityKind::WhiteDragon { .. })
    }

    /// Whether this is a farmer.
    pub fn is_farmer(&self) -> (r: bool)
        ensures
            r == (*self is Farmer),
    {
        matches!(self, EntityKind::Farmer)
    }

    /// Whether this is a tameable companion (a cat, a puppy, or a horse).
    pub fn is_pet(&self) -> (r: bool)
        ensures
            r == (*self is Cat || *self is Puppy || *self is Horse),
    {
        matches!(self, EntityKind::Cat { .. } | EntityKind::Puppy { .. } | EntityKind::Horse { .. })
    }

    /// Whether this is a pet that has been told to sit.
    pub fn is_sitting(&self) -> (r: bool)
        ensures
            r == (match *self {
                EntityKind::Cat { sitting, .. } => sitting,
                EntityKind::Puppy { sitting, .. } => sitting,
                _ => false,
            }),
    {
        matches!(self, EntityKind::Cat { sitting: true, .. } | EntityKind::Puppy { sitting: true, .. })
    }

    /// The name of the player who has tamed this entity, if any. Only a tamed
    /// pet (a cat or a puppy) has an owner; every other kind gives `None`.
    pub fn owner(&self) -> (r: Option<&str>)
        ensures
            match spec_owner(*self) {
                Some(name) => r is Some && r->0@ == name@,
                None => r is None,
            },
    {
        let owner: &Option<String> = match self {
            EntityKind::Cat { owner, .. } => owner,
            EntityKind::Puppy { owner, .. } => owner,
            _ => return None,
        };
        match owner {
            Some(name) => Some(name.as_str()),
            None => None,
        }
    }

    /// Full health for this kind of entity.
    pub fn max_health(&self) -> (r: i32)
        ensures
            r == spec_max_health(*self),
            r >= 1,
    {
        match self {
            EntityKind::Player { .. } => PLAYER_MAX_HEALTH,
            EntityKind::Slime => SLIME_MAX_HEALTH,
            EntityKind::Chicken => CHICKEN_MAX_HEALTH,
            EntityKind::Goat => GOAT_MAX_HEALTH,
            EntityKind::Cat { .. } => CAT_MAX_HEALTH,
            EntityKind::Puppy { .. } => PUPPY_MAX_HEALTH,
            EntityKind::Zombie => ZOMBIE_MAX_HEALTH,
            EntityKind::Spider => SPIDER_MAX_HEALTH,
            EntityKind::Snake => SNAKE_MAX_HEALTH,
            EntityKind::Skeleton => SKELETON_MAX_HEALTH,
            EntityKind::CharredSkeleton => CHARRED_SKELETON_MAX_HEALTH,
            EntityKind::Demon => DEMON_MAX_HEALTH,
            EntityKind::Horse { .. } => HORSE_MAX_HEALTH,
            // Inert projectiles keep health == max_health so no health bar shows.
            EntityKind::Bone => 1,
            EntityKind::Fireball => 1,
            EntityKind::Orc => ORC_MAX_HEALTH,
            EntityKind::Knight { .. } => KNIGHT_MAX_HEALTH,
            EntityKind::AshTwister => ASH_TWISTER_MAX_HEALTH,
            EntityKind::OrcMage => ORC_MAGE_MAX_HEALTH,
            EntityKind::EnchantedDemon => ENCHANTED_DEMON_MAX_HEALTH,
            EntityKind::MagicFireball => 1,
            EntityKind::Necromancer => NECROMANCER_MAX_HEALTH,
            EntityKind::Skull => SKULL_MAX_HEALTH,
            EntityKind::SummonerFireball => 1,
            EntityKind::DarkKnight => DARK_KNIGHT_MAX_HEALTH,
            EntityKind::Axe => 1,
            EntityKind::DemonKing => DEMON_KING_MAX_HEALTH,
            EntityKind::Dragon => DRAGON_MAX_HEALTH,
            EntityKind::FriendlySummonerFireball => 1,
            EntityKind::FriendlySkull => SKULL_MAX_HEALTH,
            EntityKind::Mage { .. } => MAGE_MAX_HEALTH,
            EntityKind::WhiteDragon { .. } => WHITE_DRAGON_MAX_HEALTH,
            EntityKind::FriendlyDragonFireball => 1,
            EntityKind::Musketeer { .. } => MUSKETEER_MAX_HEALTH,
            EntityKind::DarkMusketeer => DARK_MUSKETEER_MAX_HEALTH,
            EntityKind::Bullet | EntityKind::FriendlyBullet => 1,
            EntityKind::Twinscale => TWINSCALE_MAX_HEALTH,
            EntityKind::Minotaur => MINOTAUR_MAX_HEALTH,
            EntityKind::Gargoyle => GARGOYLE_MAX_HEALTH,
            EntityKind::Farmer => FARMER_MAX_HEALTH,
            // Items are inert; 1 keeps health == max_health so no health bar shows.
            EntityKind::DroppedItem { .. } => 1,
        }
    }
}

/// A copy of an optional player name.
fn clone_name(o: &Option<String>) -> (r: Option<String>)
    ensures
        r == *o,
{
    match o {
        Some(s) => Some(s.clone()),
        None => None,
    }
}

impl Clone for EntityKind {
    fn clone(&self) -> (r: Self)
        ensures
            r == *self,
    {
        match self {
            EntityKind::Player { name } => EntityKind::Player { name: name.clone() },
            EntityKind::Cat { owner, sitting } => EntityKind::Cat { owner: clone_name(owner), sitting: *sitting },
            EntityKind::Puppy { owner, sitting } => EntityKind::Puppy { owner: clone_name(owner), sitting: *sitting },
            EntityKind::DroppedItem { block, count, durability } => EntityKind::DroppedItem {
                block: *block,
                count: *count,
                durability: *durability,
            },
            EntityKind::Horse { owner } => EntityKind::Horse { owner: clone_name(owner) },
            EntityKind::Knight { owner } => EntityKind::Knight { owner: clone_name(owner) },
            EntityKind::Mage { owner } => EntityKind::Mage { owner: clone_name(owner) },
            EntityKind::WhiteDragon { owner } => EntityKind::WhiteDragon { owner: clone_name(owner) },
            EntityKind::Musketeer { owner } => EntityKind::Musketeer { owner: clone_name(owner) },
            EntityKind::Slime => EntityKind::Slime,
            EntityKind::Chicken => EntityKind::Chicken,
            EntityKind::Goat => EntityKind::Goat,
            EntityKind::Zombie => EntityKind::Zombie,
            EntityKind::Spider => EntityKind::Spider,
            EntityKind::Snake => EntityKind::Snake,
            EntityKind::Skeleton => EntityKind::Skeleton,
            EntityKind::Bone => EntityKind::Bone,
            EntityKind::CharredSkeleton => EntityKind::CharredSkeleton,
            EntityKind::Demon => EntityKind::Demon,
            EntityKind::Fireball => EntityKind::Fireball,
            EntityKind::Orc => EntityKind::Orc,
            EntityKind::AshTwister => EntityKind::AshTwister,
            EntityKind::OrcMage => EntityKind::OrcMage,
            EntityKind::EnchantedDemon => EntityKind::EnchantedDemon,
            EntityKind::MagicFireball => EntityKind::MagicFireball,
            EntityKind::Necromancer => EntityKind::Necromancer,
            EntityKind::Skull => EntityKind::Skull,
            EntityKind::SummonerFireball => EntityKind::SummonerFireball,
            EntityKind::DarkKnight => EntityKind::DarkKnight,
            EntityKind::Axe => EntityKind::Axe,
            EntityKind::DemonKing => EntityKind::DemonKing,
            EntityKind::Dragon => EntityKind::Dragon,
            EntityKind::FriendlySummonerFireball => EntityKind::FriendlySummonerFireball,
            EntityKind::FriendlySkull => EntityKind::FriendlySkull,
            EntityKind::FriendlyDragonFireball => EntityKind::FriendlyDragonFireball,
            EntityKind::DarkMusketeer => EntityKind::DarkMusketeer,
            EntityKind::Bullet => EntityKind::Bullet,
            EntityKind::FriendlyBullet => EntityKind::FriendlyBullet,
            EntityKind::Twinscale => EntityKind::Twinscale,
            EntityKind::Minotaur => EntityKind::Minotaur,
            EntityKind::Gargoyle => EntityKind::Gargoyle,
            EntityKind::Farmer => EntityKind::Farmer,
        }
    }
}

} // verus!
